//! The in-memory buffer of tuple counts.

use std::collections::hash_map::DefaultHasher;
use std::collections::HashMap;
use std::hash::Hasher;

use vstd::prelude::*;

use crate::types;
use crate::types::{TupleKey, TupleView};

verus! {

broadcast use vstd::std_specs::hash::group_hash_axioms;

/// How often a tuple has been counted.
pub open spec fn count_of(counts: Map<TupleView, u64>, tuple: TupleView) -> int {
    if counts.contains_key(tuple) {
        counts[tuple] as int
    } else {
        0
    }
}

/// A count as the buffer holds it: one that has reached the largest `u64` stays there.
pub open spec fn capped(count: int) -> u64 {
    if count > u64::MAX {
        u64::MAX
    } else {
        count as u64
    }
}

/// The counts after `count` more of one tuple.
pub open spec fn with_added(
    counts: Map<TupleView, u64>,
    tuple: TupleView,
    count: u64,
) -> Map<TupleView, u64> {
    counts.insert(tuple, capped(count_of(counts, tuple) + count))
}

/// How often a tuple occurs in a list.
pub open spec fn occurrences(tuples: Seq<TupleView>, tuple: TupleView) -> nat {
    tuples.to_multiset().count(tuple)
}

/// The counts after each tuple of a list has been counted once per occurrence.
pub open spec fn with_recorded(
    counts: Map<TupleView, u64>,
    tuples: Seq<TupleView>,
) -> Map<TupleView, u64> {
    Map::new(
        |tuple: TupleView| counts.contains_key(tuple) || tuples.contains(tuple),
        |tuple: TupleView| capped(count_of(counts, tuple) + occurrences(tuples, tuple)),
    )
}

/// The counts of two buffers taken together.
pub open spec fn merged(
    counts: Map<TupleView, u64>,
    more: Map<TupleView, u64>,
) -> Map<TupleView, u64> {
    Map::new(
        |tuple: TupleView| counts.contains_key(tuple) || more.contains_key(tuple),
        |tuple: TupleView| capped(count_of(counts, tuple) + count_of(more, tuple)),
    )
}

/// The counts after the items of a list have been added one after the other.
pub open spec fn with_all_added(
    counts: Map<TupleView, u64>,
    items: Seq<(TupleKey, u64)>,
) -> Map<TupleView, u64>
    decreases items.len(),
{
    if items.len() == 0 {
        counts
    } else {
        with_added(with_all_added(counts, items.drop_last()), items.last().0@, items.last().1)
    }
}

/// The tuples of a batch, in order.
pub open spec fn batch_tuples(batch: Seq<(TupleKey, u64)>) -> Seq<TupleView> {
    batch.map_values(|item: (TupleKey, u64)| item.0@)
}

/// A batch lists every tuple at most once.
pub open spec fn is_batch(batch: Seq<(TupleKey, u64)>) -> bool {
    batch_tuples(batch).no_duplicates()
}

/// The counts that a batch lists.
pub open spec fn batch_counts(batch: Seq<(TupleKey, u64)>) -> Map<TupleView, u64> {
    Map::new(
        |tuple: TupleView| batch_tuples(batch).contains(tuple),
        |tuple: TupleView| batch[batch_tuples(batch).index_of(tuple)].1,
    )
}

/// Counts per tuple, accumulated between flushes.
///
/// The items stand in no particular order; `index` leads from the digest of a tuple to
/// the positions at which it can stand.
pub struct Aggregator {
    items: Vec<(TupleKey, u64)>,
    index: HashMap<u64, Vec<usize>>,
}

impl View for Aggregator {
    type V = Map<TupleView, u64>;

    closed spec fn view(&self) -> Map<TupleView, u64> {
        batch_counts(self.items@)
    }
}

/// The digest of a tuple, by which the index finds it.
spec fn digest_of(tuple: TupleView) -> u64 {
    <DefaultHasher as vstd::std_specs::hash::DefaultHasherAdditionalSpecFns>::spec_finish(
        seq![
            vstd::utf8::encode_utf8(tuple.property_type.name()),
            vstd::utf8::encode_utf8(tuple.property_key),
            vstd::utf8::encode_utf8(tuple.property_value),
        ],
    ) ^ (tuple.team_id as u64)
}

fn digest(tuple: &TupleKey) -> (digest: u64)
    ensures
        digest == digest_of(tuple@),
{
    let mut hasher = DefaultHasher::new();
    hasher.write(tuple.property_type.as_str().as_bytes());
    hasher.write(tuple.property_key.as_str().as_bytes());
    hasher.write(tuple.property_value.as_str().as_bytes());
    assert(hasher@ =~= seq![
        vstd::utf8::encode_utf8(tuple@.property_type.name()),
        vstd::utf8::encode_utf8(tuple@.property_key),
        vstd::utf8::encode_utf8(tuple@.property_value),
    ]);
    hasher.finish() ^ (tuple.team_id as u64)
}

/// The index leads to every item, and to nothing else.
spec fn is_index(items: Seq<(TupleKey, u64)>, index: Map<u64, Vec<usize>>) -> bool {
    &&& forall|i: int|
        0 <= i < items.len() ==> {
            let digest = digest_of((#[trigger] items[i]).0@);
            index.contains_key(digest) && index[digest]@.contains(i as usize)
        }
    &&& forall|digest: u64, p: int|
        index.contains_key(digest) && 0 <= p < index[digest]@.len()
            ==> #[trigger] index[digest]@[p] < items.len()
}

/// The position of a tuple among the items.
fn find(items: &Vec<(TupleKey, u64)>, index: &HashMap<u64, Vec<usize>>, tuple: &TupleKey) -> (found:
    Option<usize>)
    requires
        is_index(items@, index@),
    ensures
        match found {
            Some(i) => i < items@.len() && items@[i as int].0@ == tuple@,
            None => !batch_tuples(items@).contains(tuple@),
        },
{
    let bucket = match index.get(&digest(tuple)) {
        Some(bucket) => bucket,
        None => {
            return None;
        },
    };
    for p in 0..bucket.len()
        invariant
            is_index(items@, index@),
            index@.contains_key(digest_of(tuple@)),
            *bucket == index@[digest_of(tuple@)],
            forall|q: int| 0 <= q < p ==> items@[#[trigger] bucket@[q] as int].0@ != tuple@,
    {
        let i: usize = bucket[p];
        assert(index@[digest_of(tuple@)]@[p as int] < items@.len());
        if items[i].0.same_as(tuple) {
            return Some(i);
        }
    }
    assert(!batch_tuples(items@).contains(tuple@)) by {
        if batch_tuples(items@).contains(tuple@) {
            let i = choose|i: int| 0 <= i < items@.len() && batch_tuples(items@)[i] == tuple@;
            assert(items@[i].0@ == tuple@);
            assert(items.len() == items@.len());
            assert(bucket@.contains(i as usize));
        }
    }
    None
}

/// Replacing a count keeps the tuples and the index, and changes that count alone.
proof fn lemma_update(items: Seq<(TupleKey, u64)>, index: Map<u64, Vec<usize>>, i: int, count: u64)
    requires
        is_batch(items),
        is_index(items, index),
        0 <= i < items.len(),
    ensures
        is_batch(items.update(i, (items[i].0, count))),
        is_index(items.update(i, (items[i].0, count)), index),
        batch_counts(items).contains_key(items[i].0@),
        batch_counts(items)[items[i].0@] == items[i].1,
        batch_counts(items.update(i, (items[i].0, count))) == batch_counts(items).insert(
            items[i].0@,
            count,
        ),
{
    let after = items.update(i, (items[i].0, count));
    assert(batch_tuples(after) =~= batch_tuples(items));
    assert(batch_tuples(items)[i] == items[i].0@);
    assert(batch_tuples(items).index_of(items[i].0@) == i);
    assert(batch_counts(after) =~= batch_counts(items).insert(items[i].0@, count));
}

/// An item for a new tuple extends the tuples and the counts.
proof fn lemma_extend_batch(items: Seq<(TupleKey, u64)>, tuple: TupleKey, count: u64)
    requires
        is_batch(items),
        !batch_tuples(items).contains(tuple@),
    ensures
        is_batch(items.push((tuple, count))),
        batch_counts(items.push((tuple, count))) == batch_counts(items).insert(tuple@, count),
{
    let after = items.push((tuple, count));
    let place = items.len() as int;
    assert(batch_tuples(after) =~= batch_tuples(items).push(tuple@));
    assert(batch_tuples(after)[place] == tuple@);
    assert(batch_tuples(after).index_of(tuple@) == place);
    assert forall|other: TupleView| batch_tuples(items).contains(other) implies batch_tuples(
        after,
    ).index_of(other) == batch_tuples(items).index_of(other) by {
        let i = batch_tuples(items).index_of(other);
        assert(batch_tuples(after)[i] == other);
    }
    assert forall|other: TupleView| batch_tuples(after).contains(other) implies other == tuple@
        || batch_tuples(items).contains(other) by {
        let i = batch_tuples(after).index_of(other);
        if i < place {
            assert(batch_tuples(items)[i] == other);
        }
    }
    assert(batch_counts(after) =~= batch_counts(items).insert(tuple@, count)) by {
        assert forall|other: TupleView| batch_tuples(items).contains(other) implies #[trigger] batch_tuples(
            after,
        ).contains(other) by {
            let i = batch_tuples(items).index_of(other);
            assert(batch_tuples(after)[i] == other);
        }
    }
}

/// An item for a new tuple extends the tuples, the index and the counts.
proof fn lemma_push(
    items: Seq<(TupleKey, u64)>,
    index: Map<u64, Vec<usize>>,
    tuple: TupleKey,
    count: u64,
    extended: Map<u64, Vec<usize>>,
)
    requires
        is_batch(items),
        is_index(items, index),
        items.len() <= usize::MAX,
        !batch_tuples(items).contains(tuple@),
        ({
            let digest = digest_of(tuple@);
            let known = if index.contains_key(digest) {
                index[digest]@
            } else {
                Seq::empty()
            };
            &&& extended == index.insert(digest, extended[digest])
            &&& extended[digest]@ == known.push(items.len() as usize)
        }),
    ensures
        is_batch(items.push((tuple, count))),
        is_index(items.push((tuple, count)), extended),
        batch_counts(items.push((tuple, count))) == batch_counts(items).insert(tuple@, count),
{
    let after = items.push((tuple, count));
    let place = items.len() as int;
    let digest = digest_of(tuple@);
    lemma_extend_batch(items, tuple, count);
    assert forall|i: int| 0 <= i < after.len() implies {
        let digest = digest_of((#[trigger] after[i]).0@);
        extended.contains_key(digest) && extended[digest]@.contains(i as usize)
    } by {
        let d = digest_of(after[i].0@);
        if i < place {
            assert(after[i] == items[i]);
            let p = choose|p: int| 0 <= p < index[d]@.len() && index[d]@[p] == i as usize;
            assert(extended[d]@[p] == i as usize);
        } else {
            assert(extended[digest]@.last() == place as usize);
        }
    }
    assert forall|d: u64, p: int|
        extended.contains_key(d) && 0 <= p < extended[d]@.len() implies #[trigger] extended[d]@[p]
        < after.len() by {
        if d != digest {
            assert(index[d]@[p] < items.len());
        } else if p < extended[d]@.len() - 1 {
            assert(index[d]@[p] < items.len());
        }
    }
}

impl Aggregator {
    #[verifier::type_invariant]
    spec fn well_formed(&self) -> bool {
        is_batch(self.items@) && is_index(self.items@, self.index@)
    }

    /// An empty buffer.
    pub fn new() -> (aggregator: Aggregator)
        ensures
            aggregator@ == Map::<TupleView, u64>::empty(),
    {
        let aggregator = Aggregator { items: Vec::new(), index: HashMap::new() };
        assert(aggregator@ =~= Map::empty());
        aggregator
    }

    /// Adds `count` to the count of one tuple.
    pub fn add(&mut self, tuple: TupleKey, count: u64)
        ensures
            final(self)@ == with_added(old(self)@, tuple@, count),
    {
        let mut taken = Aggregator::new();
        std::mem::swap(self, &mut taken);
        proof {
            use_type_invariant(&taken);
        }
        let Aggregator { mut items, mut index } = taken;
        let ghost before = items@;
        match find(&items, &index, &tuple) {
            Some(i) => {
                let total: u64 = items[i].1.saturating_add(count);
                items[i].1 = total;
                proof {
                    assert(items@ =~= before.update(i as int, (before[i as int].0, total)));
                    lemma_update(before, index@, i as int, total);
                }
            },
            None => {
                let place: usize = items.len();
                let digest: u64 = digest(&tuple);
                let ghost known = index@;
                index.entry(digest).or_insert(Vec::new()).push(place);
                items.push((tuple, count));
                proof {
                    lemma_push(before, known, tuple, count, index@);
                }
            },
        }
        *self = Aggregator { items, index };
    }

    /// Counts one occurrence of a tuple.
    pub fn record(&mut self, tuple: TupleKey)
        ensures
            final(self)@ == with_added(old(self)@, tuple@, 1),
    {
        self.add(tuple, 1);
    }

    /// Counts each tuple of a list once per occurrence.
    pub fn record_many(&mut self, tuples: Vec<TupleKey>)
        ensures
            final(self)@ == with_recorded(old(self)@, types::tuple_views(tuples@)),
    {
        let ghost all = types::tuple_views(tuples@);
        let ghost before = self@;
        let mut remaining = tuples;
        proof {
            lemma_record_nothing(before, all.skip(all.len() as int));
        }
        while remaining.len() > 0
            invariant
                remaining@.len() <= all.len(),
                types::tuple_views(remaining@) =~= all.take(remaining@.len() as int),
                self@ == with_recorded(before, all.skip(remaining@.len() as int)),
            decreases remaining@.len(),
        {
            let ghost n = remaining@.len() as int;
            let tuple = remaining.pop().unwrap();
            proof {
                assert(types::tuple_views(remaining@.push(tuple)) =~= all.take(n));
                assert(all.take(n)[n - 1] == tuple@);
                lemma_record_one_more(before, tuple@, all.skip(n));
                assert(all.skip(n - 1) =~= seq![tuple@] + all.skip(n));
            }
            self.record(tuple);
            assert(types::tuple_views(remaining@) =~= all.take(n - 1));
        }
        assert(all.skip(0) =~= all);
    }

    /// Takes all counts out, as a batch that lists each tuple once.
    pub fn drain(&mut self) -> (batch: Vec<(TupleKey, u64)>)
        ensures
            is_batch(batch@),
            batch_counts(batch@) == old(self)@,
            batch@.len() == old(self)@.len(),
            forall|i: int|
                0 <= i < batch@.len() ==> old(self)@.contains_key((#[trigger] batch@[i]).0@)
                    && old(self)@[batch@[i].0@] == batch@[i].1,
            forall|tuple: TupleView| #[trigger]
                old(self)@.contains_key(tuple) ==> exists|i: int|
                    0 <= i < batch@.len() && (#[trigger] batch@[i]).0@ == tuple,
            final(self)@ == Map::<TupleView, u64>::empty(),
    {
        let mut taken = Aggregator::new();
        std::mem::swap(self, &mut taken);
        proof {
            use_type_invariant(&taken);
            lemma_batch_len(taken.items@);
            lemma_batch_counts_are_its_items(taken.items@);
        }
        taken.items
    }

    /// Puts items back: their counts are added to those that have arrived since.
    pub fn restore(&mut self, items: Vec<(TupleKey, u64)>)
        ensures
            final(self)@ == with_all_added(old(self)@, items@),
    {
        let ghost all = items@;
        for item in iter: items
            invariant
                iter.seq() == all,
                self@ == with_all_added(old(self)@, all.take(iter.index() as int)),
        {
            proof {
                let n = iter.index() as int;
                assert(all.take(n + 1).drop_last() =~= all.take(n));
                assert(all.take(n + 1).last() == all[n]);
            }
            let (tuple, count) = item;
            self.add(tuple, count);
        }
        assert(all.take(all.len() as int) =~= all);
    }

    /// The number of tuples that have a count.
    pub fn len(&self) -> (len: usize)
        ensures
            len == self@.len(),
            self@.dom().finite(),
    {
        proof {
            use_type_invariant(self);
            lemma_batch_len(self.items@);
        }
        self.items.len()
    }

    /// Whether no tuple has a count.
    pub fn is_empty(&self) -> (empty: bool)
        ensures
            empty == (self@ == Map::<TupleView, u64>::empty()),
    {
        proof {
            if self.items@.len() == 0 {
                assert(self@ =~= Map::empty());
            } else {
                assert(batch_tuples(self.items@)[0] == self.items@[0].0@);
                assert(self@.contains_key(self.items@[0].0@));
            }
        }
        self.items.len() == 0
    }
}

/// A batch has as many items as tuples that it counts.
proof fn lemma_batch_len(batch: Seq<(TupleKey, u64)>)
    requires
        is_batch(batch),
    ensures
        batch_counts(batch).dom().finite(),
        batch_counts(batch).len() == batch.len(),
{
    let tuples = batch_tuples(batch);
    tuples.unique_seq_to_set();
    vstd::seq_lib::seq_to_set_is_finite(tuples);
    assert(batch_counts(batch).dom() =~= tuples.to_set());
}

/// Counting no tuple leaves the counts as they are.
pub proof fn lemma_record_nothing(counts: Map<TupleView, u64>, none: Seq<TupleView>)
    requires
        none.len() == 0,
    ensures
        with_recorded(counts, none) == counts,
{
    assert forall|tuple: TupleView| occurrences(none, tuple) == 0 by {
        lemma_occurs_means_contained(none, tuple);
    }
    assert(with_recorded(counts, none) =~= counts);
}

/// A tuple occurs in a list exactly where the list contains it.
pub proof fn lemma_occurs_means_contained(tuples: Seq<TupleView>, tuple: TupleView)
    ensures
        occurrences(tuples, tuple) > 0 <==> tuples.contains(tuple),
{
    broadcast use vstd::seq_lib::group_to_multiset_ensures;

}

/// Counting one tuple before the rest is counting it with the rest.
proof fn lemma_record_one_more(
    counts: Map<TupleView, u64>,
    tuple: TupleView,
    rest: Seq<TupleView>,
)
    ensures
        with_added(with_recorded(counts, rest), tuple, 1) == with_recorded(
            counts,
            seq![tuple] + rest,
        ),
{
    let all = seq![tuple] + rest;
    vstd::seq_lib::lemma_multiset_commutative(seq![tuple], rest);
    broadcast use vstd::seq_lib::group_to_multiset_ensures;

    assert(all.to_multiset() =~= seq![tuple].to_multiset().add(rest.to_multiset()));
    assert(seq![tuple] =~= Seq::empty().push(tuple));
    assert(Seq::<TupleView>::empty().to_multiset() =~= vstd::multiset::Multiset::empty());
    assert forall|other: TupleView| occurrences(all, other) == occurrences(rest, other) + (
    if other == tuple {
        1int
    } else {
        0int
    }) by {}
    assert forall|other: TupleView|
        all.contains(other) <==> other == tuple || rest.contains(other) by {
        assert(all.contains(other) <==> occurrences(all, other) > 0);
        assert(rest.contains(other) <==> occurrences(rest, other) > 0);
    }
    assert(with_added(with_recorded(counts, rest), tuple, 1) =~= with_recorded(counts, all));
}

/// Adding the items of a batch one after the other merges its counts.
pub proof fn lemma_adding_a_batch_merges(
    counts: Map<TupleView, u64>,
    batch: Seq<(TupleKey, u64)>,
)
    requires
        is_batch(batch),
    ensures
        with_all_added(counts, batch) == merged(counts, batch_counts(batch)),
    decreases batch.len(),
{
    if batch.len() == 0 {
        assert(merged(counts, batch_counts(batch)) =~= counts);
    } else {
        let shorter = batch.drop_last();
        let (tuple, count) = batch.last();
        assert(batch =~= shorter.push((tuple, count)));
        assert(batch_tuples(shorter) =~= batch_tuples(batch).drop_last());
        assert(batch_tuples(batch).last() == tuple@);
        assert(!batch_tuples(shorter).contains(tuple@)) by {
            if batch_tuples(shorter).contains(tuple@) {
                let i = batch_tuples(shorter).index_of(tuple@);
                assert(batch_tuples(batch)[i] == tuple@);
            }
        }
        lemma_adding_a_batch_merges(counts, shorter);
        lemma_extend_batch(shorter, tuple, count);
        assert(with_added(merged(counts, batch_counts(shorter)), tuple@, count) =~= merged(
            counts,
            batch_counts(batch),
        ));
    }
}

/// What was drained and put back into an empty buffer is what was there before.
pub proof fn lemma_merge_into_empty(counts: Map<TupleView, u64>)
    ensures
        merged(Map::empty(), counts) == counts,
{
    assert(merged(Map::empty(), counts) =~= counts);
}

/// Tuples that arrive between a drain and the restore keep their counts: the buffer
/// ends up as if it had never been drained.
pub proof fn lemma_restore_after_arrivals(counts: Map<TupleView, u64>, arrived: Seq<TupleView>)
    ensures
        merged(with_recorded(Map::empty(), arrived), counts) == with_recorded(counts, arrived),
{
    assert forall|tuple: TupleView| occurrences(arrived, tuple) > 0 <==> arrived.contains(
        tuple,
    ) by {
        lemma_occurs_means_contained(arrived, tuple);
    }
    assert(merged(with_recorded(Map::empty(), arrived), counts) =~= with_recorded(
        counts,
        arrived,
    ));
}

/// Counts accumulate: two lists counted one after the other are one list counted.
pub proof fn lemma_records_accumulate(
    counts: Map<TupleView, u64>,
    first: Seq<TupleView>,
    second: Seq<TupleView>,
)
    ensures
        with_recorded(with_recorded(counts, first), second) == with_recorded(
            counts,
            first + second,
        ),
{
    vstd::seq_lib::lemma_multiset_commutative(first, second);
    assert forall|tuple: TupleView|
        occurrences(first + second, tuple) == occurrences(first, tuple) + occurrences(
            second,
            tuple,
        ) && ((first + second).contains(tuple) <==> first.contains(tuple) || second.contains(
            tuple,
        )) by {
        lemma_occurs_means_contained(first, tuple);
        lemma_occurs_means_contained(second, tuple);
        lemma_occurs_means_contained(first + second, tuple);
    }
    assert forall|tuple: TupleView| occurrences(first, tuple) > 0 <==> first.contains(
        tuple,
    ) by {
        lemma_occurs_means_contained(first, tuple);
    }
    assert(with_recorded(with_recorded(counts, first), second) =~= with_recorded(
        counts,
        first + second,
    ));
}

/// The order in which tuples are counted does not matter.
pub proof fn lemma_record_order_is_irrelevant(
    counts: Map<TupleView, u64>,
    first: Seq<TupleView>,
    second: Seq<TupleView>,
)
    requires
        first.to_multiset() == second.to_multiset(),
    ensures
        with_recorded(counts, first) == with_recorded(counts, second),
{
    assert forall|tuple: TupleView| first.contains(tuple) <==> second.contains(tuple) by {
        lemma_occurs_means_contained(first, tuple);
        lemma_occurs_means_contained(second, tuple);
    }
    assert(with_recorded(counts, first) =~= with_recorded(counts, second));
}

/// Adding to a tuple raises its count by that much and touches no other. A count that
/// would pass the largest `u64` stops there, and a tuple without a count starts from
/// nothing.
pub proof fn lemma_adding_raises_one_count(
    counts: Map<TupleView, u64>,
    tuple: TupleView,
    count: u64,
    other: TupleView,
)
    requires
        other != tuple,
    ensures
        with_added(counts, tuple, count).contains_key(tuple),
        !counts.contains_key(tuple) ==> with_added(counts, tuple, count)[tuple] == count,
        counts.contains_key(tuple) && counts[tuple] + count <= u64::MAX ==> with_added(
            counts,
            tuple,
            count,
        )[tuple] == counts[tuple] + count,
        counts.contains_key(tuple) && counts[tuple] + count > u64::MAX ==> with_added(
            counts,
            tuple,
            count,
        )[tuple] == u64::MAX,
        with_added(counts, tuple, count).contains_key(other) <==> counts.contains_key(other),
        counts.contains_key(other) ==> with_added(counts, tuple, count)[other] == counts[other],
{
}

/// A tuple occurs in a list as often as there are places at which it stands.
pub proof fn lemma_occurrences_are_places(tuples: Seq<TupleView>, tuple: TupleView)
    ensures
        Set::new(|i: int| 0 <= i < tuples.len() && tuples[i] == tuple).finite(),
        occurrences(tuples, tuple) == Set::new(
            |i: int| 0 <= i < tuples.len() && tuples[i] == tuple,
        ).len(),
    decreases tuples.len(),
{
    broadcast use vstd::seq_lib::group_to_multiset_ensures;

    let places = Set::new(|i: int| 0 <= i < tuples.len() && tuples[i] == tuple);
    if tuples.len() == 0 {
        assert(places =~= Set::empty());
        assert(!tuples.contains(tuple));
    } else {
        let shorter = tuples.drop_last();
        let last = tuples.len() - 1;
        lemma_occurrences_are_places(shorter, tuple);
        let before = Set::new(|i: int| 0 <= i < shorter.len() && shorter[i] == tuple);
        assert(tuples =~= shorter.push(tuples.last()));
        assert(tuples.to_multiset() =~= shorter.to_multiset().insert(tuples.last()));
        if tuples.last() == tuple {
            assert(places =~= before.insert(last));
        } else {
            assert(places =~= before);
        }
    }
}

/// Counting a list raises the count of every tuple by the number of places at which it
/// stands in the list, up to the largest `u64`, and touches no tuple that stands nowhere.
pub proof fn lemma_recording_raises_counts_by_places(
    counts: Map<TupleView, u64>,
    tuples: Seq<TupleView>,
    tuple: TupleView,
    places: Set<int>,
)
    requires
        forall|i: int| #[trigger]
            places.contains(i) <==> 0 <= i < tuples.len() && tuples[i] == tuple,
    ensures
        with_recorded(counts, tuples).contains_key(tuple) <==> counts.contains_key(tuple)
            || places.len() > 0,
        counts.contains_key(tuple) && counts[tuple] + places.len() <= u64::MAX ==> with_recorded(
            counts,
            tuples,
        )[tuple] == counts[tuple] + places.len(),
        counts.contains_key(tuple) && counts[tuple] + places.len() > u64::MAX ==> with_recorded(
            counts,
            tuples,
        )[tuple] == u64::MAX,
        !counts.contains_key(tuple) && 0 < places.len() <= u64::MAX ==> with_recorded(
            counts,
            tuples,
        )[tuple] == places.len(),
        !counts.contains_key(tuple) && places.len() > u64::MAX ==> with_recorded(
            counts,
            tuples,
        )[tuple] == u64::MAX,
{
    lemma_occurs_means_contained(tuples, tuple);
    lemma_occurrences_are_places(tuples, tuple);
    assert(places =~= Set::new(|i: int| 0 <= i < tuples.len() && tuples[i] == tuple));
}

/// Putting items back is adding them one by one: one list after another is both lists in
/// a row, no items change nothing, and a single item is added.
pub proof fn lemma_restoring_adds_item_by_item(
    counts: Map<TupleView, u64>,
    first: Seq<(TupleKey, u64)>,
    second: Seq<(TupleKey, u64)>,
    tuple: TupleKey,
    count: u64,
)
    ensures
        with_all_added(counts, Seq::empty()) == counts,
        with_all_added(counts, seq![(tuple, count)]) == with_added(counts, tuple@, count),
        with_all_added(counts, first + second) == with_all_added(
            with_all_added(counts, first),
            second,
        ),
    decreases second.len(),
{
    assert(seq![(tuple, count)].drop_last() =~= Seq::empty());
    assert(with_all_added(counts, seq![(tuple, count)].drop_last()) == counts);
    if second.len() == 0 {
        assert(first + second =~= first);
    } else {
        lemma_restoring_adds_item_by_item(counts, first, second.drop_last(), tuple, count);
        assert((first + second).drop_last() =~= first + second.drop_last());
        assert((first + second).last() == second.last());
    }
}

/// A batch has no tuple twice, and its counts are the counts that stand beside its tuples.
pub proof fn lemma_batch_counts_are_its_items(batch: Seq<(TupleKey, u64)>)
    requires
        is_batch(batch),
    ensures
        batch_counts(batch).len() == batch.len(),
        forall|i: int, j: int|
            0 <= i < j < batch.len() ==> (#[trigger] batch[i]).0@ != (#[trigger] batch[j]).0@,
        forall|i: int|
            0 <= i < batch.len() ==> batch_counts(batch).contains_key((#[trigger] batch[i]).0@)
                && batch_counts(batch)[batch[i].0@] == batch[i].1,
        forall|tuple: TupleView| #[trigger]
            batch_counts(batch).contains_key(tuple) ==> exists|i: int|
                0 <= i < batch.len() && (#[trigger] batch[i]).0@ == tuple,
{
    lemma_batch_len(batch);
    let tuples = batch_tuples(batch);
    assert forall|i: int, j: int| 0 <= i < j < batch.len() implies (#[trigger] batch[i]).0@ != (
    #[trigger] batch[j]).0@ by {
        assert(tuples[i] != tuples[j]);
    }
    assert forall|i: int| 0 <= i < batch.len() implies batch_counts(batch).contains_key(
        (#[trigger] batch[i]).0@,
    ) && batch_counts(batch)[batch[i].0@] == batch[i].1 by {
        assert(tuples[i] == batch[i].0@);
        assert(tuples.index_of(batch[i].0@) == i);
    }
    assert forall|tuple: TupleView| #[trigger]
        batch_counts(batch).contains_key(tuple) implies exists|i: int|
        0 <= i < batch.len() && (#[trigger] batch[i]).0@ == tuple by {
        let i = tuples.index_of(tuple);
        assert(batch[i].0@ == tuple);
    }
}

/// Taking two buffers together adds their counts, up to the largest `u64`; a tuple that
/// only one of them counts keeps its count.
pub proof fn lemma_merging_adds_counts(
    counts: Map<TupleView, u64>,
    more: Map<TupleView, u64>,
    tuple: TupleView,
)
    ensures
        merged(counts, more).contains_key(tuple) <==> counts.contains_key(tuple)
            || more.contains_key(tuple),
        counts.contains_key(tuple) && !more.contains_key(tuple) ==> merged(counts, more)[tuple]
            == counts[tuple],
        !counts.contains_key(tuple) && more.contains_key(tuple) ==> merged(counts, more)[tuple]
            == more[tuple],
        counts.contains_key(tuple) && more.contains_key(tuple) && counts[tuple] + more[tuple]
            <= u64::MAX ==> merged(counts, more)[tuple] == counts[tuple] + more[tuple],
        counts.contains_key(tuple) && more.contains_key(tuple) && counts[tuple] + more[tuple]
            > u64::MAX ==> merged(counts, more)[tuple] == u64::MAX,
{
}

} // verus!
