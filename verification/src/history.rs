//! What holds of a worker over any run: no count is lost or delivered twice, and no
//! offset is committed before everything counted up to it has been delivered.

use std::time::Duration;

use vstd::prelude::*;

use crate::aggregator;
use crate::app_context::AppContext;
use crate::fan_out;
use crate::flush;
use crate::flush::{CommittableOffset, FlushOutcome, FlushReport};
use crate::producer::{Call, Producer};
use crate::types::{Event, TupleView};
use crate::worker;
use crate::worker::{Input, Received, StepReport, Worker};

verus! {

/// One thing that happens to a worker.
pub ghost enum Turn<O> {
    /// A message: its tuples are counted and its offset is noted.
    Counted(Seq<TupleView>, i32, O),
    /// A flush whose batch was delivered and whose offsets were committed.
    Delivered,
    /// A flush whose batch was not delivered, or that had nothing to do.
    Undelivered,
}

/// What a worker holds.
pub ghost struct Held<O> {
    pub counts: Map<TupleView, u64>,
    pub pending: Map<i32, O>,
}

/// What a worker that has seen nothing holds.
pub open spec fn held_at_start<O>() -> Held<O> {
    Held { counts: Map::empty(), pending: Map::empty() }
}

/// What a worker holds after one more turn.
pub open spec fn held_after_turn<O>(held: Held<O>, turn: Turn<O>) -> Held<O> {
    match turn {
        Turn::Counted(tuples, partition, offset) => Held {
            counts: aggregator::with_recorded(held.counts, tuples),
            pending: held.pending.insert(partition, offset),
        },
        Turn::Delivered => held_at_start(),
        Turn::Undelivered => held,
    }
}

/// What a worker holds after a run.
pub open spec fn held_after<O>(turns: Seq<Turn<O>>) -> Held<O>
    decreases turns.len(),
{
    if turns.len() == 0 {
        held_at_start()
    } else {
        held_after_turn(held_after(turns.drop_last()), turns.last())
    }
}

/// How often a tuple occurred in the messages of a run.
pub open spec fn total_counted<O>(turns: Seq<Turn<O>>, tuple: TupleView) -> int
    decreases turns.len(),
{
    if turns.len() == 0 {
        0
    } else {
        total_counted(turns.drop_last(), tuple) + match turns.last() {
            Turn::Counted(tuples, _, _) => aggregator::occurrences(tuples, tuple) as int,
            _ => 0,
        }
    }
}

/// The sum of the counts with which a tuple was delivered in a run.
pub open spec fn total_delivered<O>(turns: Seq<Turn<O>>, tuple: TupleView) -> int
    decreases turns.len(),
{
    if turns.len() == 0 {
        0
    } else {
        total_delivered(turns.drop_last(), tuple) + match turns.last() {
            Turn::Delivered => aggregator::count_of(held_after(turns.drop_last()).counts, tuple),
            _ => 0,
        }
    }
}

/// The latest offset of a partition that has been noted since the last delivery.
pub open spec fn latest_offset<O>(turns: Seq<Turn<O>>, partition: i32) -> Option<O>
    decreases turns.len(),
{
    if turns.len() == 0 {
        None
    } else {
        match turns.last() {
            Turn::Counted(_, noted, offset) => if noted == partition {
                Some(offset)
            } else {
                latest_offset(turns.drop_last(), partition)
            },
            Turn::Delivered => None,
            Turn::Undelivered => latest_offset(turns.drop_last(), partition),
        }
    }
}

/// The turn that a flush is.
pub open spec fn flush_turn<O>(report: FlushReport) -> Turn<O> {
    match report.outcome {
        FlushOutcome::Committed(_) => Turn::Delivered,
        _ => Turn::Undelivered,
    }
}

/// The turn that counting a message is.
pub open spec fn message_turn<O>(
    context: &AppContext,
    event: Event,
    partition: i32,
    offset: O,
) -> Turn<O> {
    Turn::Counted(
        if context.processes(event.team_id) {
            fan_out::event_tuples(event)
        } else {
            Seq::empty()
        },
        partition,
        offset,
    )
}

/// A flush is a turn: it either delivers and commits all that the worker holds, or
/// leaves all of it. Where it delivers, the producer was called once, has returned `Ok`
/// for exactly the counts held, and exactly the pending offsets were handed to
/// `commit`. Where it does not, the producer was called at most once.
pub proof fn lemma_flush_is_a_turn<P: Producer + ?Sized, O: CommittableOffset>(
    producer: &P,
    timeout: Duration,
    calls: Seq<Call>,
    before: Held<O>,
    report: FlushReport,
    calls_after: Seq<Call>,
    after: Held<O>,
)
    requires
        flush::flushed(
            producer,
            timeout,
            calls,
            before.counts,
            before.pending,
            report,
            calls_after,
            after.counts,
            after.pending,
        ),
    ensures
        after == held_after_turn(before, flush_turn(report)),
        flush_turn::<O>(report) is Delivered ==> {
            &&& flush::produced_once(
                producer,
                timeout,
                before.counts,
                Ok(()),
                calls,
                calls_after,
            )
            &&& report.outcome matches FlushOutcome::Committed(errors) && flush::committed(
                before.pending,
                errors@,
            )
        },
        calls_after.len() <= calls.len() + 1,
{
}

/// Handling a message is one turn, or two where the buffer is full.
pub proof fn lemma_message_is_turns<P: Producer + ?Sized, O: CommittableOffset>(
    context: &AppContext,
    producer: &P,
    timeout: Duration,
    calls: Seq<Call>,
    before: Worker<O>,
    event: Event,
    partition: i32,
    offset: O,
    report: StepReport,
    calls_after: Seq<Call>,
    after: Worker<O>,
)
    requires
        worker::message_handled(
            context,
            producer,
            timeout,
            calls,
            before,
            event,
            partition,
            offset,
            report,
            calls_after,
            after,
        ),
    ensures
        ({
            let held = Held { counts: before.aggregator@, pending: before.pending_offsets@ };
            let counted = held_after_turn(held, message_turn(context, event, partition, offset));
            Held { counts: after.aggregator@, pending: after.pending_offsets@ } == match report.flush {
                Some(flush) => held_after_turn(counted, flush_turn(flush)),
                None => counted,
            }
        }),
{
    aggregator::lemma_record_nothing(before.aggregator@, Seq::empty());
}

/// No count of a tuple in the buffer ever had to stop at the largest `u64`: with each
/// message, what the buffer held plus what the message adds still fits.
pub open spec fn stays_countable<O>(turns: Seq<Turn<O>>, tuple: TupleView) -> bool
    decreases turns.len(),
{
    turns.len() == 0 || {
        &&& stays_countable(turns.drop_last(), tuple)
        &&& turns.last() matches Turn::Counted(tuples, _, _) ==> aggregator::count_of(
            held_after(turns.drop_last()).counts,
            tuple,
        ) + aggregator::occurrences(tuples, tuple) <= u64::MAX
    }
}

/// A message of the run contained the tuple.
pub open spec fn was_counted<O>(turns: Seq<Turn<O>>, tuple: TupleView) -> bool {
    exists|i: int|
        0 <= i < turns.len() && (#[trigger] turns[i] matches Turn::Counted(tuples, _, _)
            && tuples.contains(tuple))
}

/// A batch that was delivered in the run listed the tuple.
pub open spec fn was_delivered<O>(turns: Seq<Turn<O>>, tuple: TupleView) -> bool {
    exists|i: int|
        0 <= i < turns.len() && #[trigger] turns[i] is Delivered && held_after(
            turns.take(i),
        ).counts.contains_key(tuple)
}

/// No count is lost and none is delivered twice: over any run, what was counted of a
/// tuple is what was delivered of it, one batch per delivering flush, plus what the
/// buffer still holds, as long as the buffer could hold it in a `u64`.
/// `lemma_counted_is_accepted_or_held` says the same over the calls of the producer.
pub proof fn lemma_counts_are_conserved<O>(turns: Seq<Turn<O>>, tuple: TupleView)
    requires
        stays_countable(turns, tuple),
    ensures
        total_counted(turns, tuple) == total_delivered(turns, tuple) + aggregator::count_of(
            held_after(turns).counts,
            tuple,
        ),
    decreases turns.len(),
{
    if turns.len() > 0 {
        lemma_counts_are_conserved(turns.drop_last(), tuple);
        if let Turn::Counted(tuples, _, _) = turns.last() {
            aggregator::lemma_occurs_means_contained(tuples, tuple);
        }
    }
}

/// A run that counts a tuple at most `u64::MAX` times in all stays countable.
pub proof fn lemma_small_totals_stay_countable<O>(turns: Seq<Turn<O>>, tuple: TupleView)
    requires
        total_counted(turns, tuple) <= u64::MAX,
    ensures
        stays_countable(turns, tuple),
    decreases turns.len(),
{
    if turns.len() > 0 {
        lemma_small_totals_stay_countable(turns.drop_last(), tuple);
        lemma_nothing_is_overcounted(turns.drop_last(), tuple);
    }
}

/// Over any run at all, no more is delivered and held of a tuple than was counted.
pub proof fn lemma_nothing_is_overcounted<O>(turns: Seq<Turn<O>>, tuple: TupleView)
    ensures
        0 <= total_delivered(turns, tuple),
        total_delivered(turns, tuple) + aggregator::count_of(held_after(turns).counts, tuple)
            <= total_counted(turns, tuple),
    decreases turns.len(),
{
    if turns.len() > 0 {
        lemma_nothing_is_overcounted(turns.drop_last(), tuple);
        if let Turn::Counted(tuples, _, _) = turns.last() {
            aggregator::lemma_occurs_means_contained(tuples, tuple);
        }
    }
}

/// Offsets commit last: at the moment a run commits offsets, everything that was
/// counted in it has been delivered, as long as the buffer could hold it in a `u64`.
pub proof fn lemma_commit_follows_delivery<O>(turns: Seq<Turn<O>>, tuple: TupleView)
    requires
        turns.len() > 0,
        turns.last() is Delivered,
        stays_countable(turns, tuple),
    ensures
        total_counted(turns, tuple) == total_delivered(turns, tuple),
{
    lemma_counts_are_conserved(turns, tuple);
}

/// At the moment a run commits offsets, every tuple counted in it stands in a batch
/// that has been delivered, however often it was counted.
pub proof fn lemma_commit_leaves_no_tuple_behind<O>(turns: Seq<Turn<O>>, tuple: TupleView)
    requires
        turns.len() > 0,
        turns.last() is Delivered,
        was_counted(turns, tuple),
    ensures
        was_delivered(turns, tuple),
{
    lemma_counted_is_delivered_or_held(turns, tuple);
}

/// Over any run, a tuple that was counted has been delivered or is still held.
pub proof fn lemma_counted_is_delivered_or_held<O>(turns: Seq<Turn<O>>, tuple: TupleView)
    requires
        was_counted(turns, tuple),
    ensures
        was_delivered(turns, tuple) || held_after(turns).counts.contains_key(tuple),
    decreases turns.len(),
{
    let shorter = turns.drop_last();
    let last = turns.len() - 1;
    let i = choose|i: int|
        0 <= i < turns.len() && (#[trigger] turns[i] matches Turn::Counted(tuples, _, _)
            && tuples.contains(tuple));
    if i < last {
        assert(shorter[i] == turns[i]);
        assert(was_counted(shorter, tuple));
        lemma_counted_is_delivered_or_held(shorter, tuple);
        if was_delivered(shorter, tuple) {
            let j = choose|j: int|
                0 <= j < shorter.len() && #[trigger] shorter[j] is Delivered && held_after(
                    shorter.take(j),
                ).counts.contains_key(tuple);
            assert(turns[j] == shorter[j]);
            assert(turns.take(j) =~= shorter.take(j));
        } else if turns.last() is Delivered {
            assert(turns[last] is Delivered);
            assert(turns.take(last) =~= shorter);
        }
    }
}

/// Pending offsets are, per partition, the latest one noted since the last delivery;
/// a partition without one has none pending.
pub proof fn lemma_pending_offsets_are_latest<O>(turns: Seq<Turn<O>>, partition: i32)
    ensures
        match latest_offset(turns, partition) {
            Some(offset) => held_after(turns).pending.contains_key(partition) && held_after(
                turns,
            ).pending[partition] == offset,
            None => !held_after(turns).pending.contains_key(partition),
        },
    decreases turns.len(),
{
    if turns.len() > 0 {
        lemma_pending_offsets_are_latest(turns.drop_last(), partition);
    }
}

/// However often delivery fails in a row, counts and offsets stay as they are.
pub proof fn lemma_repeated_failure_keeps_all<O>(turns: Seq<Turn<O>>, failures: nat)
    ensures
        held_after(turns + Seq::new(failures, |i: int| Turn::<O>::Undelivered)) == held_after(
            turns,
        ),
    decreases failures,
{
    let failed = Seq::new(failures, |i: int| Turn::<O>::Undelivered);
    if failures == 0 {
        assert(turns + failed =~= turns);
    } else {
        let fewer = Seq::new((failures - 1) as nat, |i: int| Turn::<O>::Undelivered);
        assert((turns + failed).drop_last() =~= turns + fewer);
        lemma_repeated_failure_keeps_all(turns, (failures - 1) as nat);
    }
}

/// A message that arrives after a failed flush is counted on top of what that flush
/// put back.
pub proof fn lemma_failed_flush_then_message<O>(
    held: Held<O>,
    tuples: Seq<TupleView>,
    partition: i32,
    offset: O,
)
    ensures
        held_after_turn(
            held_after_turn(held, Turn::Undelivered),
            Turn::Counted(tuples, partition, offset),
        ) == held_after_turn(held, Turn::Counted(tuples, partition, offset)),
{
}

/// The sum of the counts of a tuple in the batches that the producer accepted.
pub open spec fn total_accepted(calls: Seq<Call>, tuple: TupleView) -> int
    decreases calls.len(),
{
    if calls.len() == 0 {
        0
    } else {
        total_accepted(calls.drop_last(), tuple) + match calls.last().result {
            Ok(_) => aggregator::count_of(
                aggregator::batch_counts(calls.last().items@),
                tuple,
            ),
            Err(_) => 0,
        }
    }
}

/// The run `turns` is what a worker has behind it: it accounts for what the worker holds,
/// and what the run delivered is what the producer accepted.
pub open spec fn is_run_of<O>(turns: Seq<Turn<O>>, worker: Worker<O>, calls: Seq<Call>) -> bool {
    &&& held_after(turns) == Held {
        counts: worker.aggregator@,
        pending: worker.pending_offsets@,
    }
    &&& forall|tuple: TupleView| #[trigger]
        total_accepted(calls, tuple) == total_delivered(turns, tuple)
}

/// The turns that one step consists of.
pub open spec fn are_turns_of_step<O: CommittableOffset>(
    context: &AppContext,
    input: Input<O>,
    report: StepReport,
    turns: Seq<Turn<O>>,
) -> bool {
    let flushes = match report.flush {
        Some(flush) => seq![flush_turn::<O>(flush)],
        None => Seq::empty(),
    };
    match input {
        Input::Received(Received::Message(event, offset)) => exists|partition: i32| #[trigger]
            call_ensures(O::partition, (&offset,), partition) && turns == seq![
                message_turn(context, event, partition, offset),
            ] + flushes,
        _ => turns == flushes,
    }
}

/// A worker that has seen nothing, and an outlet through which nothing has gone, have
/// the empty run behind them.
pub proof fn lemma_start_is_a_run<O>(worker: Worker<O>, calls: Seq<Call>)
    requires
        worker.aggregator@ == Map::<TupleView, u64>::empty(),
        worker.pending_offsets@ == Map::<i32, O>::empty(),
        calls.len() == 0,
    ensures
        is_run_of(Seq::empty(), worker, calls),
{
}

/// Every step prolongs the run by its own turns. So whatever inputs a worker is given
/// from its start, it has a run behind it; and the counts that the run delivered are
/// those in the batches that the producer accepted.
pub proof fn lemma_step_prolongs_run<P: Producer + ?Sized, O: CommittableOffset>(
    context: &AppContext,
    producer: &P,
    timeout: Duration,
    calls: Seq<Call>,
    before: Worker<O>,
    input: Input<O>,
    report: StepReport,
    calls_after: Seq<Call>,
    after: Worker<O>,
    turns: Seq<Turn<O>>,
)
    requires
        is_run_of(turns, before, calls),
        worker::stepped(
            context,
            producer,
            timeout,
            calls,
            before,
            input,
            report,
            calls_after,
            after,
        ),
    ensures
        exists|more: Seq<Turn<O>>| #[trigger]
            are_turns_of_step(context, input, report, more) && is_run_of(
                turns + more,
                after,
                calls_after,
            ),
{
    if let Input::Received(Received::Message(event, offset)) = input {
        let partition = choose|partition: i32| #[trigger]
            call_ensures(O::partition, (&offset,), partition) && worker::message_handled(
                context,
                producer,
                timeout,
                calls,
                before,
                event,
                partition,
                offset,
                report,
                calls_after,
                after,
            );
        let counted = message_turn(context, event, partition, offset);
        let longer = turns.push(counted);
        aggregator::lemma_record_nothing(before.aggregator@, Seq::empty());
        assert(longer.drop_last() =~= turns);
        assert forall|tuple: TupleView| #[trigger]
            total_accepted(calls, tuple) == total_delivered(longer, tuple) by {}
        if let Some(flush) = report.flush {
            lemma_flush_prolongs_run(
                producer,
                timeout,
                calls,
                longer,
                flush,
                calls_after,
                Held { counts: after.aggregator@, pending: after.pending_offsets@ },
            );
            let more = seq![counted] + seq![flush_turn::<O>(flush)];
            assert(turns + more =~= longer.push(flush_turn(flush)));
            assert(are_turns_of_step(context, input, report, more));
        } else {
            let more = seq![counted] + Seq::<Turn<O>>::empty();
            assert(turns + more =~= longer);
            assert(are_turns_of_step(context, input, report, more));
        }
    } else if let Some(flush) = report.flush {
        lemma_flush_prolongs_run(
            producer,
            timeout,
            calls,
            turns,
            flush,
            calls_after,
            Held { counts: after.aggregator@, pending: after.pending_offsets@ },
        );
        let more = seq![flush_turn::<O>(flush)];
        assert(turns + more =~= turns.push(flush_turn(flush)));
        assert(are_turns_of_step(context, input, report, more));
    } else {
        let more = Seq::<Turn<O>>::empty();
        assert(turns + more =~= turns);
        assert(are_turns_of_step(context, input, report, more));
    }
}

/// The counts that a worker's messages brought of a tuple are those in the batches that
/// the producer accepted plus those that the worker still holds: nothing is lost, and
/// nothing accepted is counted again.
pub proof fn lemma_counted_is_accepted_or_held<O>(
    turns: Seq<Turn<O>>,
    worker: Worker<O>,
    calls: Seq<Call>,
    tuple: TupleView,
)
    requires
        is_run_of(turns, worker, calls),
        stays_countable(turns, tuple),
    ensures
        total_counted(turns, tuple) == total_accepted(calls, tuple) + aggregator::count_of(
            worker.aggregator@,
            tuple,
        ),
{
    lemma_counts_are_conserved(turns, tuple);
    assert(total_accepted(calls, tuple) == total_delivered(turns, tuple));
}

/// A flush prolongs a run by its turn, and what that turn delivers is what the producer
/// accepted.
proof fn lemma_flush_prolongs_run<P: Producer + ?Sized, O: CommittableOffset>(
    producer: &P,
    timeout: Duration,
    calls: Seq<Call>,
    turns: Seq<Turn<O>>,
    report: FlushReport,
    calls_after: Seq<Call>,
    after: Held<O>,
)
    requires
        forall|tuple: TupleView| #[trigger]
            total_accepted(calls, tuple) == total_delivered(turns, tuple),
        flush::flushed(
            producer,
            timeout,
            calls,
            held_after(turns).counts,
            held_after(turns).pending,
            report,
            calls_after,
            after.counts,
            after.pending,
        ),
    ensures
        held_after(turns.push(flush_turn(report))) == after,
        forall|tuple: TupleView| #[trigger]
            total_accepted(calls_after, tuple) == total_delivered(
                turns.push(flush_turn(report)),
                tuple,
            ),
{
    let longer = turns.push(flush_turn::<O>(report));
    assert(longer.drop_last() =~= turns);
    assert(longer.last() == flush_turn::<O>(report));
    assert(report.outcome !is Idle ==> calls_after.drop_last() =~= calls);
    assert forall|tuple: TupleView| #[trigger]
        total_accepted(calls_after, tuple) == total_delivered(longer, tuple) by {
        assert(total_accepted(calls, tuple) == total_delivered(turns, tuple));
    }
}

} // verus!
