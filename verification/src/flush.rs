//! The flush: counts go out first, and only then do input offsets advance.

use std::collections::HashMap;
use std::time::Duration;

use vstd::prelude::*;

use crate::aggregator;
use crate::aggregator::Aggregator;
use crate::producer::{Call, Outlet, ProduceError, Producer};
use crate::types::{TupleKey, TupleView};

verus! {

broadcast use vstd::std_specs::hash::group_hash_axioms;

/// The flush timer is due.
pub const FLUSH_REASON_TIMER: &'static str = "timer";

/// The buffer is full.
pub const FLUSH_REASON_BACKPRESSURE: &'static str = "backpressure";

/// The worker stops.
pub const FLUSH_REASON_SHUTDOWN: &'static str = "shutdown";

/// Why an offset could not be stored.
#[derive(Debug)]
pub enum OffsetErr {
    /// The client refused it, for the reason given.
    Kafka(String),
    /// The consumer that the offset came from is gone.
    Gone,
}

/// A position in one partition of the input that can be committed.
pub trait CommittableOffset: Sized {
    fn partition(&self) -> i32;

    fn commit(self) -> Result<(), OffsetErr>;
}

/// How a flush ended.
#[derive(Debug)]
pub enum FlushOutcome {
    /// There was nothing to flush.
    Idle,
    /// The batch was not delivered; counts and offsets are as before.
    Failed(ProduceError),
    /// The batch was delivered and the offsets were committed, except for those that
    /// are listed by partition.
    Committed(Vec<(i32, OffsetErr)>),
}

/// What there is to report of a flush.
#[derive(Debug)]
pub struct FlushReport {
    pub reason: &'static str,
    /// The number of tuples in the batch.
    pub tuples: usize,
    pub outcome: FlushOutcome,
}

/// A list holds every entry of a map once, and nothing else.
pub open spec fn lists<O>(offsets: Seq<(i32, O)>, pending: Map<i32, O>) -> bool {
    &&& forall|i: int, j: int|
        0 <= i < j < offsets.len() ==> (#[trigger] offsets[i]).0 != (#[trigger] offsets[j]).0
    &&& forall|i: int|
        0 <= i < offsets.len() ==> pending.contains_key((#[trigger] offsets[i]).0)
            && pending[offsets[i].0] == offsets[i].1
    &&& forall|partition: i32| #[trigger]
        pending.contains_key(partition) ==> exists|i: int|
            0 <= i < offsets.len() && (#[trigger] offsets[i]).0 == partition
}

/// `results` are outcomes of committing `offsets`, one each.
pub open spec fn are_commit_results<O: CommittableOffset>(
    offsets: Seq<(i32, O)>,
    results: Seq<Result<(), OffsetErr>>,
) -> bool {
    &&& results.len() == offsets.len()
    &&& forall|i: int|
        0 <= i < offsets.len() ==> call_ensures(O::commit, (offsets[i].1,), #[trigger] results[i])
}

/// The partitions of the commits that failed, in order, each with its error.
pub open spec fn commit_errors<O>(
    offsets: Seq<(i32, O)>,
    results: Seq<Result<(), OffsetErr>>,
) -> Seq<(i32, OffsetErr)>
    decreases results.len(),
{
    if results.len() == 0 {
        Seq::empty()
    } else {
        let before = commit_errors(offsets, results.drop_last());
        match results.last() {
            Ok(_) => before,
            Err(error) => before.push((offsets[results.len() - 1].0, error)),
        }
    }
}

/// Every pending offset was handed to `commit`, and `errors` lists those that it
/// returned an error for.
pub open spec fn committed<O: CommittableOffset>(
    pending: Map<i32, O>,
    errors: Seq<(i32, OffsetErr)>,
) -> bool {
    exists|offsets: Seq<(i32, O)>, results: Seq<Result<(), OffsetErr>>| #[trigger]
        lists(offsets, pending) && #[trigger] are_commit_results(offsets, results) && errors
            == commit_errors(offsets, results)
}

/// The producer was called through the outlet exactly once: it was handed exactly these
/// counts, as one batch, and returned `result`.
pub open spec fn produced_once<P: Producer + ?Sized>(
    producer: &P,
    timeout: Duration,
    counts: Map<TupleView, u64>,
    result: Result<(), ProduceError>,
    calls: Seq<Call>,
    calls_after: Seq<Call>,
) -> bool {
    exists|items: Vec<(TupleKey, u64)>|
        {
            &&& #[trigger] aggregator::is_batch(items@)
            &&& aggregator::batch_counts(items@) == counts
            &&& call_ensures(P::produce_batch, (producer, items, timeout), result)
            &&& calls_after == calls.push(Call { items, timeout, result })
        }
}

/// Commits every pending offset and lists the failures by partition.
fn commit_all<O: CommittableOffset>(offsets: Vec<(i32, O)>) -> (errors: Vec<(i32, OffsetErr)>)
    ensures
        exists|results: Seq<Result<(), OffsetErr>>| #[trigger]
            are_commit_results(offsets@, results) && errors@ == commit_errors(offsets@, results),
{
    let ghost all = offsets@;
    let ghost mut results: Seq<Result<(), OffsetErr>> = Seq::empty();
    let mut errors: Vec<(i32, OffsetErr)> = Vec::new();
    for item in iter: offsets
        invariant
            iter.seq() == all,
            results.len() == iter.index(),
            forall|i: int|
                0 <= i < results.len() ==> call_ensures(
                    O::commit,
                    (all[i].1,),
                    #[trigger] results[i],
                ),
            errors@ == commit_errors(all, results),
    {
        let (partition, offset) = item;
        let result = offset.commit();
        proof {
            assert(results.push(result).drop_last() =~= results);
            results = results.push(result);
        }
        if let Err(error) = result {
            errors.push((partition, error));
        }
    }
    assert(are_commit_results(all, results));
    errors
}

/// Takes all pending offsets out.
fn take_offsets<O>(pending_offsets: &mut HashMap<i32, O>) -> (offsets: Vec<(i32, O)>)
    ensures
        lists(offsets@, old(pending_offsets)@),
        final(pending_offsets)@ == Map::<i32, O>::empty(),
{
    let ghost pending = pending_offsets@;
    let ghost listed = vstd::std_specs::iter::IteratorSpec::remaining(
        &vstd::std_specs::hash::spec_keys_iter(pending_offsets),
    );
    let mut partitions: Vec<i32> = Vec::new();
    for partition in iter: pending_offsets.keys()
        invariant
            iter.seq() == listed,
            partitions@ =~= listed.unref().take(iter.index() as int),
    {
        partitions.push(*partition);
    }
    let ghost all = partitions@;
    assert(all =~= listed.unref());
    assert(all.no_duplicates());
    assert forall|partition: i32| pending.contains_key(partition) implies all.contains(
        partition,
    ) by {
        assert(all.to_set().contains(partition));
    }
    assert forall|i: int| 0 <= i < all.len() implies pending.contains_key(#[trigger] all[i]) by {
        assert(all.to_set().contains(all[i]));
    }
    let mut offsets: Vec<(i32, O)> = Vec::new();
    for i in 0..partitions.len()
        invariant
            partitions@ == all,
            all.no_duplicates(),
            forall|j: int| 0 <= j < all.len() ==> pending.contains_key(#[trigger] all[j]),
            offsets@.len() == i,
            forall|j: int|
                0 <= j < i ==> (#[trigger] offsets@[j]).0 == all[j] && offsets@[j].1
                    == pending[all[j]],
            forall|partition: i32| #[trigger]
                pending_offsets@.contains_key(partition) ==> pending.contains_key(partition)
                    && pending_offsets@[partition] == pending[partition],
            forall|j: int| 0 <= j < i ==> !pending_offsets@.contains_key(#[trigger] all[j]),
            forall|j: int| i <= j < all.len() ==> pending_offsets@.contains_key(#[trigger] all[j]),
    {
        let partition: i32 = partitions[i];
        if let Some(offset) = pending_offsets.remove(&partition) {
            offsets.push((partition, offset));
        }
    }
    assert forall|partition: i32| #[trigger] pending.contains_key(partition) implies exists|i: int|
        0 <= i < offsets@.len() && (#[trigger] offsets@[i]).0 == partition by {
        let i = all.index_of(partition);
        assert(offsets@[i].0 == partition);
    }
    assert(pending_offsets@ =~= Map::empty()) by {
        assert forall|partition: i32| !#[trigger] pending_offsets@.contains_key(partition) by {
            if pending_offsets@.contains_key(partition) {
                let i = all.index_of(partition);
                assert(all[i] == partition);
            }
        }
    }
    offsets
}

/// A copy of a batch.
fn copy_batch(batch: &Vec<(TupleKey, u64)>) -> (copy: Vec<(TupleKey, u64)>)
    ensures
        copy@.len() == batch@.len(),
        aggregator::is_batch(copy@) == aggregator::is_batch(batch@),
        aggregator::batch_counts(copy@) == aggregator::batch_counts(batch@),
{
    let mut copy: Vec<(TupleKey, u64)> = Vec::new();
    for i in 0..batch.len()
        invariant
            copy@.len() == i,
            forall|j: int|
                0 <= j < i ==> (#[trigger] copy@[j]).0@ == batch@[j].0@ && copy@[j].1
                    == batch@[j].1,
    {
        copy.push((batch[i].0.clone(), batch[i].1));
    }
    proof {
        assert(aggregator::batch_tuples(copy@) =~= aggregator::batch_tuples(batch@));
        assert(aggregator::batch_counts(copy@) =~= aggregator::batch_counts(batch@));
    }
    copy
}

/// Opens a flush: takes the counts out as a batch for the producer, or returns `None`
/// where there is nothing to flush.
///
/// Offsets without counts (all events filtered) open a flush too, with an empty
/// batch. That is safe: a failed flush puts its counts back, so where the buffer is
/// empty nothing is in flight.
pub fn begin_flush<O>(aggregator: &mut Aggregator, pending_offsets: &HashMap<i32, O>) -> (snapshot:
    Option<Vec<(TupleKey, u64)>>)
    ensures
        snapshot is None <==> old(aggregator)@ == Map::<TupleView, u64>::empty()
            && pending_offsets@ == Map::<i32, O>::empty(),
        final(aggregator)@ == Map::<TupleView, u64>::empty(),
        snapshot matches Some(batch) ==> {
            &&& aggregator::is_batch(batch@)
            &&& aggregator::batch_counts(batch@) == old(aggregator)@
            &&& batch@.len() == old(aggregator)@.len()
        },
{
    assert(pending_offsets@.is_empty() <==> pending_offsets@ =~= Map::empty());
    if aggregator.is_empty() && pending_offsets.is_empty() {
        return None;
    }
    Some(aggregator.drain())
}

/// Closes a flush with what the producer returned.
///
/// After an error the batch is merged back into the buffer, where tuples that have
/// arrived since keep their counts, and the offsets stay pending. After a success the
/// offsets are handed out to be committed.
pub fn settle_flush<O>(
    aggregator: &mut Aggregator,
    pending_offsets: &mut HashMap<i32, O>,
    snapshot: Vec<(TupleKey, u64)>,
    result: Result<(), ProduceError>,
) -> (settled: Result<Vec<(i32, O)>, ProduceError>)
    ensures
        match result {
            Ok(_) => {
                &&& settled matches Ok(offsets) && lists(offsets@, old(pending_offsets)@)
                &&& final(aggregator)@ == old(aggregator)@
                &&& final(pending_offsets)@ == Map::<i32, O>::empty()
            },
            Err(error) => {
                &&& settled matches Err(returned) && returned == error
                &&& final(aggregator)@ == aggregator::with_all_added(old(aggregator)@, snapshot@)
                &&& final(pending_offsets)@ == old(pending_offsets)@
            },
        },
{
    if let Err(error) = result {
        aggregator.restore(snapshot);
        return Err(error);
    }
    Ok(take_offsets(pending_offsets))
}

/// What a flush does, given what the producer and the offsets return.
pub open spec fn flushed<P: Producer + ?Sized, O: CommittableOffset>(
    producer: &P,
    timeout: Duration,
    calls: Seq<Call>,
    counts: Map<TupleView, u64>,
    pending: Map<i32, O>,
    report: FlushReport,
    calls_after: Seq<Call>,
    counts_after: Map<TupleView, u64>,
    pending_after: Map<i32, O>,
) -> bool {
    &&& report.tuples == counts.len()
    &&& report.outcome is Idle <==> counts == Map::<TupleView, u64>::empty() && pending
        == Map::<i32, O>::empty()
    &&& match report.outcome {
        FlushOutcome::Idle => {
            &&& calls_after == calls
            &&& counts_after == counts
            &&& pending_after == pending
        },
        FlushOutcome::Failed(error) => {
            &&& produced_once(producer, timeout, counts, Err(error), calls, calls_after)
            &&& counts_after == counts
            &&& pending_after == pending
        },
        FlushOutcome::Committed(errors) => {
            &&& produced_once(producer, timeout, counts, Ok(()), calls, calls_after)
            &&& committed(pending, errors@)
            &&& counts_after == Map::<TupleView, u64>::empty()
            &&& pending_after == Map::<i32, O>::empty()
        },
    }
}

/// Drains the buffer, produces all tuples, waits for the outcome, then commits input
/// offsets. Three invariants hold:
///
/// 1. Offsets are committed only after produce returns `Ok`. A failed produce leaves
///    `pending_offsets` intact, so that events replay on rebalance or restart.
/// 2. On produce failure the drained snapshot is merged back into the buffer, so that
///    no count is lost.
/// 3. Where the buffer is empty but `pending_offsets` is not, the producer is still
///    called, with an empty batch, and the offsets commit once it returns `Ok`.
///
/// The producer is called exactly once, and not at all where there is nothing to flush.
pub fn flush<P: Producer + ?Sized, O: CommittableOffset>(
    aggregator: &mut Aggregator,
    pending_offsets: &mut HashMap<i32, O>,
    outlet: &mut Outlet<'_, P>,
    timeout: Duration,
    reason: &'static str,
) -> (report: FlushReport)
    ensures
        report.reason == reason,
        final(outlet).producer() == old(outlet).producer(),
        flushed(
            old(outlet).producer(),
            timeout,
            old(outlet).calls(),
            old(aggregator)@,
            old(pending_offsets)@,
            report,
            final(outlet).calls(),
            final(aggregator)@,
            final(pending_offsets)@,
        ),
{
    let snapshot = match begin_flush(aggregator, pending_offsets) {
        Some(snapshot) => snapshot,
        None => {
            return FlushReport { reason, tuples: 0, outcome: FlushOutcome::Idle };
        },
    };
    let tuples: usize = snapshot.len();
    let batch = copy_batch(&snapshot);
    let ghost items = batch;
    let ghost drained = snapshot@;
    let result = outlet.send(batch, timeout);
    assert(aggregator::is_batch(items@));
    assert(produced_once(
        old(outlet).producer(),
        timeout,
        old(aggregator)@,
        result,
        old(outlet).calls(),
        outlet.calls(),
    ));
    match settle_flush(aggregator, pending_offsets, snapshot, result) {
        Err(error) => {
            proof {
                aggregator::lemma_adding_a_batch_merges(Map::empty(), drained);
                aggregator::lemma_merge_into_empty(old(aggregator)@);
            }
            FlushReport { reason, tuples, outcome: FlushOutcome::Failed(error) }
        },
        Ok(offsets) => {
            let errors = commit_all(offsets);
            assert(committed(old(pending_offsets)@, errors@));
            assert(result->Ok_0 == ());
            FlushReport { reason, tuples, outcome: FlushOutcome::Committed(errors) }
        },
    }
}

/// A flush with something to flush hands the producer one batch and no more: the calls
/// before it stand, one is added, and the batch in it lists every tuple of the buffer
/// once, with the count that the buffer held, and no other tuple. Where the producer
/// returned `Ok`, nothing is left in the buffer and no offset is pending; where it
/// returned an error, that error is reported, and buffer and offsets are as before. With
/// nothing to flush, the producer is not called and nothing changes.
pub proof fn lemma_flush_hands_the_buffer_over_once<P: Producer + ?Sized, O: CommittableOffset>(
    producer: &P,
    timeout: Duration,
    calls: Seq<Call>,
    counts: Map<TupleView, u64>,
    pending: Map<i32, O>,
    report: FlushReport,
    calls_after: Seq<Call>,
    counts_after: Map<TupleView, u64>,
    pending_after: Map<i32, O>,
)
    requires
        flushed(
            producer,
            timeout,
            calls,
            counts,
            pending,
            report,
            calls_after,
            counts_after,
            pending_after,
        ),
    ensures
        counts == Map::<TupleView, u64>::empty() && pending == Map::<i32, O>::empty() ==> {
            &&& report.outcome is Idle
            &&& report.tuples == 0
            &&& calls_after == calls
            &&& counts_after == counts
            &&& pending_after == pending
        },
        counts != Map::<TupleView, u64>::empty() || pending != Map::<i32, O>::empty() ==> {
            let call = calls_after.last();
            &&& calls_after.len() == calls.len() + 1
            &&& forall|i: int| 0 <= i < calls.len() ==> #[trigger] calls_after[i] == calls[i]
            &&& call.timeout == timeout
            &&& call_ensures(P::produce_batch, (producer, call.items, timeout), call.result)
            &&& report.tuples == call.items@.len()
            &&& forall|i: int, j: int|
                0 <= i < j < call.items@.len() ==> (#[trigger] call.items@[i]).0@ != (
                #[trigger] call.items@[j]).0@
            &&& forall|i: int|
                0 <= i < call.items@.len() ==> counts.contains_key(
                    (#[trigger] call.items@[i]).0@,
                ) && counts[call.items@[i].0@] == call.items@[i].1
            &&& forall|tuple: TupleView| #[trigger]
                counts.contains_key(tuple) ==> exists|i: int|
                    0 <= i < call.items@.len() && (#[trigger] call.items@[i]).0@ == tuple
            &&& match call.result {
                Ok(_) => {
                    &&& report.outcome is Committed
                    &&& counts_after == Map::<TupleView, u64>::empty()
                    &&& pending_after == Map::<i32, O>::empty()
                },
                Err(error) => {
                    &&& report.outcome == FlushOutcome::Failed(error)
                    &&& counts_after == counts
                    &&& pending_after == pending
                },
            }
        },
{
    if report.outcome !is Idle {
        let batch = calls_after.last().items@;
        aggregator::lemma_batch_counts_are_its_items(batch);
    }
}

/// After a flush whose batch was delivered, every pending offset has been handed to
/// `commit`: what it returned for a partition is an error exactly where the report lists
/// that partition, with that error. The report lists no partition twice and none that was
/// not pending.
pub proof fn lemma_every_pending_offset_is_committed<O: CommittableOffset>(
    pending: Map<i32, O>,
    errors: Seq<(i32, OffsetErr)>,
)
    requires
        committed(pending, errors),
    ensures
        forall|partition: i32| #[trigger]
            pending.contains_key(partition) ==> exists|result: Result<(), OffsetErr>|
                #![trigger call_ensures(O::commit, (pending[partition],), result)]
                {
                    &&& call_ensures(O::commit, (pending[partition],), result)
                    &&& match result {
                        Ok(_) => forall|k: int|
                            0 <= k < errors.len() ==> (#[trigger] errors[k]).0 != partition,
                        Err(error) => errors.contains((partition, error)),
                    }
                },
        forall|k: int| 0 <= k < errors.len() ==> pending.contains_key((#[trigger] errors[k]).0),
        forall|j: int, k: int|
            0 <= j < k < errors.len() ==> (#[trigger] errors[j]).0 != (#[trigger] errors[k]).0,
{
    let (offsets, results) = choose|offsets: Seq<(i32, O)>, results: Seq<Result<(), OffsetErr>>|
        #[trigger] lists(offsets, pending) && #[trigger] are_commit_results(offsets, results)
            && errors == commit_errors(offsets, results);
    lemma_commit_errors_are_the_failures(offsets, results);
    assert forall|partition: i32| #[trigger] pending.contains_key(partition) implies exists|
        result: Result<(), OffsetErr>,
    |
        #![trigger call_ensures(O::commit, (pending[partition],), result)]
        {
            &&& call_ensures(O::commit, (pending[partition],), result)
            &&& match result {
                Ok(_) => forall|k: int|
                    0 <= k < errors.len() ==> (#[trigger] errors[k]).0 != partition,
                Err(error) => errors.contains((partition, error)),
            }
        } by {
        let i = choose|i: int| 0 <= i < offsets.len() && (#[trigger] offsets[i]).0 == partition;
        assert(call_ensures(O::commit, (offsets[i].1,), results[i]));
        assert(call_ensures(O::commit, (pending[partition],), results[i]));
    }
}

/// The commits that failed are listed, each with its error, and no others.
proof fn lemma_commit_errors_are_the_failures<O>(
    offsets: Seq<(i32, O)>,
    results: Seq<Result<(), OffsetErr>>,
)
    requires
        results.len() <= offsets.len(),
        forall|i: int, j: int|
            0 <= i < j < offsets.len() ==> (#[trigger] offsets[i]).0 != (#[trigger] offsets[j]).0,
    ensures
        ({
            let errors = commit_errors(offsets, results);
            &&& forall|i: int|
                0 <= i < results.len() ==> match #[trigger] results[i] {
                    Ok(_) => forall|k: int|
                        0 <= k < errors.len() ==> (#[trigger] errors[k]).0 != offsets[i].0,
                    Err(error) => errors.contains((offsets[i].0, error)),
                }
            &&& forall|k: int|
                0 <= k < errors.len() ==> exists|i: int|
                    0 <= i < results.len() && (#[trigger] offsets[i]).0 == (#[trigger] errors[k]).0
            &&& forall|j: int, k: int|
                0 <= j < k < errors.len() ==> (#[trigger] errors[j]).0 != (#[trigger] errors[k]).0
        }),
    decreases results.len(),
{
    if results.len() > 0 {
        let shorter = results.drop_last();
        let last = results.len() - 1;
        lemma_commit_errors_are_the_failures(offsets, shorter);
        let before = commit_errors(offsets, shorter);
        let errors = commit_errors(offsets, results);
        assert forall|k: int| 0 <= k < before.len() implies (#[trigger] before[k]).0
            != offsets[last].0 by {
            let i = choose|i: int|
                0 <= i < shorter.len() && (#[trigger] offsets[i]).0 == before[k].0;
            assert(offsets[i].0 != offsets[last].0);
        }
        assert forall|k: int| 0 <= k < errors.len() implies exists|i: int|
            0 <= i < results.len() && (#[trigger] offsets[i]).0 == (#[trigger] errors[k]).0 by {
            if k < before.len() {
                assert(errors[k] == before[k]);
                let i = choose|i: int|
                    0 <= i < shorter.len() && (#[trigger] offsets[i]).0 == before[k].0;
                assert(offsets[i].0 == errors[k].0);
            } else {
                assert(offsets[last].0 == errors[k].0);
            }
        }
        assert forall|i: int| 0 <= i < results.len() implies match #[trigger] results[i] {
            Ok(_) => forall|k: int|
                0 <= k < errors.len() ==> (#[trigger] errors[k]).0 != offsets[i].0,
            Err(error) => errors.contains((offsets[i].0, error)),
        } by {
            if i < last {
                assert(shorter[i] == results[i]);
                if let Err(error) = results[i] {
                    let k = before.index_of((offsets[i].0, error));
                    assert(errors[k] == (offsets[i].0, error));
                } else {
                    assert forall|k: int| 0 <= k < errors.len() implies (#[trigger] errors[k]).0
                        != offsets[i].0 by {
                        if k < before.len() {
                            assert(errors[k] == before[k]);
                        } else {
                            assert(offsets[i].0 != offsets[last].0);
                        }
                    }
                }
            } else if let Err(error) = results[i] {
                assert(errors.last() == (offsets[last].0, error));
            }
        }
    }
}

/// A list that holds the entries of a map has as many items as the map has keys; every
/// key stands in it, beside its own value.
pub proof fn lemma_list_is_the_whole_map<O>(offsets: Seq<(i32, O)>, pending: Map<i32, O>)
    requires
        lists(offsets, pending),
    ensures
        pending.dom().finite(),
        offsets.len() == pending.len(),
        forall|partition: i32| #[trigger]
            pending.contains_key(partition) ==> offsets.contains((partition, pending[partition])),
{
    let partitions = offsets.map_values(|entry: (i32, O)| entry.0);
    assert forall|i: int, j: int|
        0 <= i < partitions.len() && 0 <= j < partitions.len() && i != j implies partitions[i]
        != partitions[j] by {
        if i < j {
            assert(offsets[i].0 != offsets[j].0);
        } else {
            assert(offsets[j].0 != offsets[i].0);
        }
    }
    partitions.unique_seq_to_set();
    vstd::seq_lib::seq_to_set_is_finite(partitions);
    assert forall|partition: i32| #[trigger] pending.contains_key(partition) implies offsets.contains(
        (partition, pending[partition]),
    ) && partitions.contains(partition) by {
        let i = choose|i: int| 0 <= i < offsets.len() && (#[trigger] offsets[i]).0 == partition;
        assert(offsets[i] == (partition, pending[partition]));
        assert(partitions[i] == partition);
    }
    assert(pending.dom() =~= partitions.to_set()) by {
        assert forall|partition: i32| partitions.contains(
            partition,
        ) implies pending.contains_key(partition) by {
            let i = partitions.index_of(partition);
            assert(pending.contains_key(offsets[i].0));
        }
    }
}

} // verus!
