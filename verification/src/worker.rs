//! The worker: what one turn of its loop does for each thing that can happen.

use std::collections::HashMap;
use std::time::Duration;

use vstd::prelude::*;

use crate::aggregator;
use crate::aggregator::Aggregator;
use crate::app_context::AppContext;
use crate::fan_out;
use crate::flush;
use crate::flush::{
    CommittableOffset, FlushOutcome, FlushReport, FLUSH_REASON_BACKPRESSURE, FLUSH_REASON_SHUTDOWN,
    FLUSH_REASON_TIMER,
};
use crate::json;
use crate::json::JsonView;
use crate::producer::{Call, Outlet, Producer};
use crate::types::{Event, PropertyType, TupleView};

verus! {

broadcast use vstd::std_specs::hash::group_hash_axioms;

/// What came of waiting for a message.
pub enum Received<O> {
    /// An event, and the offset it came with.
    Message(Event, O),
    /// A message without content. The consumer has stored its offset.
    Empty,
    /// A message that is no event. The consumer has stored its offset.
    Malformed,
    /// The consumer failed.
    Failed,
}

/// What a worker waits for.
pub enum Input<O> {
    /// The process shuts down.
    Shutdown,
    /// The flush timer is due.
    Tick,
    /// The consumer returned.
    Received(Received<O>),
}

/// What became of an event.
#[derive(Debug, Clone, Copy, PartialEq, Eq, Structural)]
pub enum Ingested {
    /// Its team is not processed.
    Filtered,
    /// So many tuples were counted.
    Aggregated(usize),
}

/// What there is to report of one turn of the loop.
#[derive(Debug)]
pub struct StepReport {
    /// Whether the loop ends here.
    pub stop: bool,
    /// What became of the event, where there was one.
    pub ingested: Option<Ingested>,
    /// Whether the consumer failed.
    pub receive_failed: bool,
    /// The flush, where one was due.
    pub flush: Option<FlushReport>,
}

/// The state of one worker: the counts since the last flush, and per partition the
/// latest offset seen, which is committed once those counts are durable.
pub struct Worker<O> {
    pub aggregator: Aggregator,
    pub pending_offsets: HashMap<i32, O>,
}

/// The counts after an event: its tuples are counted where its team is processed.
pub open spec fn counts_after_event(
    context: &AppContext,
    counts: Map<TupleView, u64>,
    event: Event,
) -> Map<TupleView, u64> {
    if context.processes(event.team_id) {
        aggregator::with_recorded(counts, fan_out::event_tuples(event))
    } else {
        counts
    }
}

/// What became of an event.
pub open spec fn is_ingested(context: &AppContext, event: Event, ingested: Ingested) -> bool {
    match ingested {
        Ingested::Aggregated(tuples) => context.processes(event.team_id) && tuples
            == fan_out::event_tuples(event).len(),
        Ingested::Filtered => !context.processes(event.team_id),
    }
}

/// What one turn of the loop does for a message whose offset is in `partition`.
pub open spec fn message_handled<P: Producer + ?Sized, O: CommittableOffset>(
    context: &AppContext,
    producer: &P,
    timeout: Duration,
    calls: Seq<Call>,
    before: Worker<O>,
    event: Event,
    partition: i32,
    offset: O,
    report: StepReport,
    calls_after: Seq<Call>,
    after: Worker<O>,
) -> bool {
    let counts = counts_after_event(context, before.aggregator@, event);
    let pending = before.pending_offsets@.insert(partition, offset);
    &&& report.ingested matches Some(ingested) && is_ingested(context, event, ingested)
    &&& context.processes(event.team_id) ==> fan_out::has_distinct_slots(
        fan_out::event_tuples(event),
    )
    &&& report.flush is Some <==> counts.len() >= context.max_entries_per_partition
    &&& match report.flush {
        Some(flush) => {
            &&& flush.reason@ == FLUSH_REASON_BACKPRESSURE@
            &&& flush::flushed(
                producer,
                timeout,
                calls,
                counts,
                pending,
                flush,
                calls_after,
                after.aggregator@,
                after.pending_offsets@,
            )
        },
        None => {
            &&& calls_after == calls
            &&& after.aggregator@ == counts
            &&& after.pending_offsets@ == pending
        },
    }
}

/// A worker is left as it was.
pub open spec fn is_unchanged<O>(before: Worker<O>, after: Worker<O>) -> bool {
    &&& after.aggregator@ == before.aggregator@
    &&& after.pending_offsets@ == before.pending_offsets@
}

/// What one turn of the loop does for each input.
pub open spec fn stepped<P: Producer + ?Sized, O: CommittableOffset>(
    context: &AppContext,
    producer: &P,
    timeout: Duration,
    calls: Seq<Call>,
    before: Worker<O>,
    input: Input<O>,
    report: StepReport,
    calls_after: Seq<Call>,
    after: Worker<O>,
) -> bool {
    &&& report.stop <==> input is Shutdown
    &&& report.receive_failed <==> (input matches Input::Received(received) && received is Failed)
    &&& report.ingested is Some <==> (input matches Input::Received(received)
        && received is Message)
    &&& match input {
        Input::Shutdown => {
            &&& report.flush matches Some(flush) && flush.reason@ == FLUSH_REASON_SHUTDOWN@
            &&& flush::flushed(
                producer,
                timeout,
                calls,
                before.aggregator@,
                before.pending_offsets@,
                report.flush->0,
                calls_after,
                after.aggregator@,
                after.pending_offsets@,
            )
        },
        Input::Tick => {
            &&& report.flush matches Some(flush) && flush.reason@ == FLUSH_REASON_TIMER@
            &&& flush::flushed(
                producer,
                timeout,
                calls,
                before.aggregator@,
                before.pending_offsets@,
                report.flush->0,
                calls_after,
                after.aggregator@,
                after.pending_offsets@,
            )
        },
        Input::Received(Received::Message(event, offset)) => exists|partition: i32| #[trigger]
            call_ensures(O::partition, (&offset,), partition) && message_handled(
                context,
                producer,
                timeout,
                calls,
                before,
                event,
                partition,
                offset,
                report,
                calls_after,
                after,
            ),
        Input::Received(_) => {
            &&& report.flush is None
            &&& calls_after == calls
            &&& is_unchanged(before, after)
        },
    }
}

impl<O: CommittableOffset> Worker<O> {
    /// A worker that has seen nothing.
    pub fn new() -> (worker: Worker<O>)
        ensures
            worker.aggregator@ == Map::<TupleView, u64>::empty(),
            worker.pending_offsets@ == Map::<i32, O>::empty(),
    {
        Worker { aggregator: Aggregator::new(), pending_offsets: HashMap::new() }
    }

    /// Counts the tuples of an event, unless its team is left out, and notes its
    /// offset. A newer offset replaces the older one of its partition.
    pub fn ingest_at(
        &mut self,
        context: &AppContext,
        event: &Event,
        partition: i32,
        offset: O,
    ) -> (ingested: Ingested)
        ensures
            is_ingested(context, *event, ingested),
            context.processes(event.team_id) ==> fan_out::has_distinct_slots(
                fan_out::event_tuples(*event),
            ),
            final(self).aggregator@ == counts_after_event(
                context,
                old(self).aggregator@,
                *event,
            ),
            final(self).pending_offsets@ == old(self).pending_offsets@.insert(partition, offset),
    {
        let ingested = if context.should_process(event.team_id) {
            let tuples = fan_out::fan_out(event);
            let counted: usize = tuples.len();
            self.aggregator.record_many(tuples);
            Ingested::Aggregated(counted)
        } else {
            Ingested::Filtered
        };
        self.pending_offsets.insert(partition, offset);
        ingested
    }

    /// Handles a message: counts it, notes its offset, and flushes where the buffer
    /// has reached the configured number of tuples.
    pub fn on_message<P: Producer + ?Sized>(
        &mut self,
        context: &AppContext,
        outlet: &mut Outlet<'_, P>,
        timeout: Duration,
        event: &Event,
        offset: O,
    ) -> (report: StepReport)
        ensures
            !report.stop,
            !report.receive_failed,
            final(outlet).producer() == old(outlet).producer(),
            exists|partition: i32| #[trigger]
                call_ensures(O::partition, (&offset,), partition) && message_handled(
                    context,
                    old(outlet).producer(),
                    timeout,
                    old(outlet).calls(),
                    *old(self),
                    *event,
                    partition,
                    offset,
                    report,
                    final(outlet).calls(),
                    *final(self),
                ),
    {
        let partition: i32 = offset.partition();
        let ingested = self.ingest_at(context, event, partition, offset);
        let flush = if self.aggregator.len() >= context.max_entries_per_partition {
            Some(
                flush::flush(
                    &mut self.aggregator,
                    &mut self.pending_offsets,
                    outlet,
                    timeout,
                    FLUSH_REASON_BACKPRESSURE,
                ),
            )
        } else {
            None
        };
        StepReport { stop: false, ingested: Some(ingested), receive_failed: false, flush }
    }

    /// One turn of the loop.
    pub fn step<P: Producer + ?Sized>(
        &mut self,
        context: &AppContext,
        outlet: &mut Outlet<'_, P>,
        timeout: Duration,
        input: Input<O>,
    ) -> (report: StepReport)
        ensures
            final(outlet).producer() == old(outlet).producer(),
            stepped(
                context,
                old(outlet).producer(),
                timeout,
                old(outlet).calls(),
                *old(self),
                input,
                report,
                final(outlet).calls(),
                *final(self),
            ),
    {
        let (stop, reason) = match input {
            Input::Shutdown => (true, FLUSH_REASON_SHUTDOWN),
            Input::Tick => (false, FLUSH_REASON_TIMER),
            Input::Received(Received::Message(event, offset)) => {
                return self.on_message(context, outlet, timeout, &event, offset);
            },
            Input::Received(Received::Empty) | Input::Received(Received::Malformed) => {
                return StepReport {
                    stop: false,
                    ingested: None,
                    receive_failed: false,
                    flush: None,
                };
            },
            Input::Received(Received::Failed) => {
                return StepReport {
                    stop: false,
                    ingested: None,
                    receive_failed: true,
                    flush: None,
                };
            },
        };
        let flush = flush::flush(
            &mut self.aggregator,
            &mut self.pending_offsets,
            outlet,
            timeout,
            reason,
        );
        StepReport { stop, ingested: None, receive_failed: false, flush: Some(flush) }
    }
}

/// The buffer stays below the configured number of tuples: after a message it has
/// reached that number only where a flush was tried and failed.
pub proof fn lemma_buffer_is_bounded<P: Producer + ?Sized, O: CommittableOffset>(
    context: &AppContext,
    producer: &P,
    timeout: Duration,
    calls: Seq<Call>,
    before: Worker<O>,
    event: Event,
    partition: i32,
    offset: O,
    report: StepReport,
    calls_after: Seq<Call>,
    after: Worker<O>,
)
    requires
        message_handled(
            context,
            producer,
            timeout,
            calls,
            before,
            event,
            partition,
            offset,
            report,
            calls_after,
            after,
        ),
    ensures
        after.aggregator@.len() >= context.max_entries_per_partition && after.aggregator@.len() > 0
            ==> (report.flush matches Some(flush) && flush.outcome is Failed),
{
    let pending = before.pending_offsets@.insert(partition, offset);
    assert(pending.contains_key(partition));
}

/// An event of a processed team raises, for every entry of every one of its blobs whose
/// key and text are within the caps, the count of that entry's tuple by one.
pub proof fn lemma_event_raises_the_count_of_every_short_entry(
    context: &AppContext,
    counts: Map<TupleView, u64>,
    event: Event,
    property_type: PropertyType,
    raw: String,
    i: int,
    text: Seq<char>,
    tuple: TupleView,
)
    requires
        context.processes(event.team_id),
        fan_out::has_distinct_slots(fan_out::event_tuples(event)),
        (match property_type {
            PropertyType::Event => event.properties,
            PropertyType::Person => event.person_properties,
            PropertyType::Group0 => event.group0_properties,
            PropertyType::Group1 => event.group1_properties,
            PropertyType::Group2 => event.group2_properties,
            PropertyType::Group3 => event.group3_properties,
            PropertyType::Group4 => event.group4_properties,
        }) == Some(raw),
        0 <= i < json::parsed_blob(raw@).entries().len(),
        ({
            let value = json::parsed_blob(raw@).entries()[i].1;
            ||| value == JsonView::Text(text)
            ||| value == JsonView::Bool(text)
            ||| value == JsonView::Number(text)
            ||| value == JsonView::Array(text)
            ||| value == JsonView::Object(text)
        }),
        1 <= json::parsed_blob(raw@).entries()[i].0.len() <= 400,
        1 <= text.len() <= 255,
        tuple == (TupleView {
            team_id: event.team_id,
            property_type,
            property_key: json::parsed_blob(raw@).entries()[i].0,
            property_value: text,
        }),
    ensures
        counts_after_event(context, counts, event).contains_key(tuple),
        !counts.contains_key(tuple) ==> counts_after_event(context, counts, event)[tuple] == 1,
        counts.contains_key(tuple) && counts[tuple] < u64::MAX ==> counts_after_event(
            context,
            counts,
            event,
        )[tuple] == counts[tuple] + 1,
        counts.contains_key(tuple) && counts[tuple] == u64::MAX ==> counts_after_event(
            context,
            counts,
            event,
        )[tuple] == u64::MAX,
{
    fan_out::lemma_every_short_entry_is_emitted(event, property_type, raw, i, text);
    lemma_distinct_slots_occur_once(fan_out::event_tuples(event), tuple);
}

/// An event changes no count but those of its own entries: where the count of a tuple is
/// another after it, the event's team is processed and the tuple's own, and the blob of
/// the tuple's type has an entry with its key and its value.
pub proof fn lemma_event_changes_no_other_count(
    context: &AppContext,
    counts: Map<TupleView, u64>,
    event: Event,
    tuple: TupleView,
    raw: Option<String>,
)
    requires
        raw == match tuple.property_type {
            PropertyType::Event => event.properties,
            PropertyType::Person => event.person_properties,
            PropertyType::Group0 => event.group0_properties,
            PropertyType::Group1 => event.group1_properties,
            PropertyType::Group2 => event.group2_properties,
            PropertyType::Group3 => event.group3_properties,
            PropertyType::Group4 => event.group4_properties,
        },
        ({
            let after = counts_after_event(context, counts, event);
            ||| after.contains_key(tuple) != counts.contains_key(tuple)
            ||| counts.contains_key(tuple) && after[tuple] != counts[tuple]
        }),
    ensures
        context.processes(event.team_id),
        tuple.team_id == event.team_id,
        1 <= tuple.property_key.len() <= 400,
        1 <= tuple.property_value.len() <= 255,
        raw is Some,
        exists|i: int|
            {
                let entries = json::parsed_blob(raw->0@).entries();
                &&& 0 <= i < entries.len()
                &&& (#[trigger] json::parsed_blob(raw->0@).entries()[i]).0 == tuple.property_key
                &&& {
                    ||| entries[i].1 == JsonView::Text(tuple.property_value)
                    ||| entries[i].1 == JsonView::Bool(tuple.property_value)
                    ||| entries[i].1 == JsonView::Number(tuple.property_value)
                    ||| entries[i].1 == JsonView::Array(tuple.property_value)
                    ||| entries[i].1 == JsonView::Object(tuple.property_value)
                }
            },
{
    let tuples = fan_out::event_tuples(event);
    aggregator::lemma_occurs_means_contained(tuples, tuple);
    assert(tuples.contains(tuple));
    fan_out::lemma_every_tuple_is_an_entry(event, tuple, raw);
}

/// The number reported of an event is the number of tuples whose counts rose, and each of
/// those rose by one. Of a team that is not processed, the event is reported as left out,
/// and no count changes.
pub proof fn lemma_reported_number_is_the_rise(
    context: &AppContext,
    counts: Map<TupleView, u64>,
    event: Event,
    ingested: Ingested,
    risen: Set<TupleView>,
)
    requires
        is_ingested(context, event, ingested),
        context.processes(event.team_id) ==> fan_out::has_distinct_slots(
            fan_out::event_tuples(event),
        ),
        forall|tuple: TupleView| #[trigger] counts.contains_key(tuple) ==> counts[tuple] < u64::MAX,
        forall|tuple: TupleView| #[trigger]
            risen.contains(tuple) <==> {
                let after = counts_after_event(context, counts, event);
                after.contains_key(tuple) && (!counts.contains_key(tuple) || after[tuple]
                    > counts[tuple])
            },
    ensures
        risen.finite(),
        ingested is Filtered <==> !context.processes(event.team_id),
        ingested is Filtered ==> counts_after_event(context, counts, event) == counts,
        ingested matches Ingested::Aggregated(tuples) ==> tuples == risen.len(),
        forall|tuple: TupleView| #[trigger]
            risen.contains(tuple) ==> counts_after_event(context, counts, event)[tuple] == (
            if counts.contains_key(tuple) {
                counts[tuple] + 1
            } else {
                1
            }),
{
    let tuples = fan_out::event_tuples(event);
    if context.processes(event.team_id) {
        assert forall|tuple: TupleView| #[trigger]
            aggregator::occurrences(tuples, tuple) == if tuples.contains(tuple) {
                1nat
            } else {
                0nat
            } by {
            aggregator::lemma_occurs_means_contained(tuples, tuple);
            if tuples.contains(tuple) {
                lemma_distinct_slots_occur_once(tuples, tuple);
            }
        }
        assert forall|tuple: TupleView| risen.contains(tuple) <==> tuples.contains(tuple) by {
            assert(aggregator::occurrences(tuples, tuple) <= 1);
        }
        assert(tuples.no_duplicates());
        tuples.unique_seq_to_set();
        vstd::seq_lib::seq_to_set_is_finite(tuples);
        assert(risen =~= tuples.to_set());
    } else {
        assert(risen =~= Set::empty());
    }
}

/// A tuple of a list without repeated slots occurs in it once.
proof fn lemma_distinct_slots_occur_once(tuples: Seq<TupleView>, tuple: TupleView)
    requires
        fan_out::has_distinct_slots(tuples),
        tuples.contains(tuple),
    ensures
        aggregator::occurrences(tuples, tuple) == 1,
{
    let places = Set::new(|i: int| 0 <= i < tuples.len() && tuples[i] == tuple);
    let k = tuples.index_of(tuple);
    aggregator::lemma_occurrences_are_places(tuples, tuple);
    assert(places =~= Set::empty().insert(k)) by {
        assert forall|i: int| places.contains(i) implies i == k by {
            if i < k {
                assert(tuples[i] == tuples[k]);
            } else if k < i {
                assert(tuples[k] == tuples[i]);
            }
        }
    }
}

/// What a message brings is in the buffer after it or, where the buffer was full and a
/// flush delivered it, in the batch that the producer was handed: for every entry of every
/// blob within the caps, with a count that is one higher than before.
pub proof fn lemma_message_counts_every_short_entry<P: Producer + ?Sized, O: CommittableOffset>(
    context: &AppContext,
    producer: &P,
    timeout: Duration,
    calls: Seq<Call>,
    before: Worker<O>,
    event: Event,
    partition: i32,
    offset: O,
    report: StepReport,
    calls_after: Seq<Call>,
    after: Worker<O>,
    property_type: PropertyType,
    raw: String,
    i: int,
    text: Seq<char>,
    tuple: TupleView,
)
    requires
        message_handled(
            context,
            producer,
            timeout,
            calls,
            before,
            event,
            partition,
            offset,
            report,
            calls_after,
            after,
        ),
        context.processes(event.team_id),
        (match property_type {
            PropertyType::Event => event.properties,
            PropertyType::Person => event.person_properties,
            PropertyType::Group0 => event.group0_properties,
            PropertyType::Group1 => event.group1_properties,
            PropertyType::Group2 => event.group2_properties,
            PropertyType::Group3 => event.group3_properties,
            PropertyType::Group4 => event.group4_properties,
        }) == Some(raw),
        0 <= i < json::parsed_blob(raw@).entries().len(),
        ({
            let value = json::parsed_blob(raw@).entries()[i].1;
            ||| value == JsonView::Text(text)
            ||| value == JsonView::Bool(text)
            ||| value == JsonView::Number(text)
            ||| value == JsonView::Array(text)
            ||| value == JsonView::Object(text)
        }),
        1 <= json::parsed_blob(raw@).entries()[i].0.len() <= 400,
        1 <= text.len() <= 255,
        tuple == (TupleView {
            team_id: event.team_id,
            property_type,
            property_key: json::parsed_blob(raw@).entries()[i].0,
            property_value: text,
        }),
    ensures
        ({
            let counted = if before.aggregator@.contains_key(tuple) {
                before.aggregator@[tuple] + 1
            } else {
                1
            };
            counted <= u64::MAX ==> match report.flush {
                Some(FlushReport { outcome: FlushOutcome::Committed(_), .. }) => {
                    &&& calls_after.len() == calls.len() + 1
                    &&& exists|k: int|
                        0 <= k < calls_after.last().items@.len() && (
                        #[trigger] calls_after.last().items@[k]).0@ == tuple
                            && calls_after.last().items@[k].1 == counted
                },
                _ => {
                    &&& after.aggregator@.contains_key(tuple)
                    &&& after.aggregator@[tuple] == counted
                },
            }
        }),
{
    let counts = counts_after_event(context, before.aggregator@, event);
    let pending = before.pending_offsets@.insert(partition, offset);
    lemma_event_raises_the_count_of_every_short_entry(
        context,
        before.aggregator@,
        event,
        property_type,
        raw,
        i,
        text,
        tuple,
    );
    if let Some(flush) = report.flush {
        flush::lemma_flush_hands_the_buffer_over_once(
            producer,
            timeout,
            calls,
            counts,
            pending,
            flush,
            calls_after,
            after.aggregator@,
            after.pending_offsets@,
        );
        assert(counts.contains_key(tuple));
    }
}

/// A message's offset becomes the pending one of its partition and no other partition's
/// changes; a flush follows exactly where the buffer then holds as many tuples as are
/// allowed or more, and it alone calls the producer. A flush that fails leaves what was
/// counted and noted in place.
pub proof fn lemma_message_is_noted_and_a_full_buffer_flushed<
    P: Producer + ?Sized,
    O: CommittableOffset,
>(
    context: &AppContext,
    producer: &P,
    timeout: Duration,
    calls: Seq<Call>,
    before: Worker<O>,
    event: Event,
    partition: i32,
    offset: O,
    report: StepReport,
    calls_after: Seq<Call>,
    after: Worker<O>,
    other: i32,
)
    requires
        message_handled(
            context,
            producer,
            timeout,
            calls,
            before,
            event,
            partition,
            offset,
            report,
            calls_after,
            after,
        ),
        other != partition,
    ensures
        report.flush is Some <==> counts_after_event(
            context,
            before.aggregator@,
            event,
        ).len() >= context.max_entries_per_partition,
        report.flush matches Some(flush) ==> {
            &&& flush.reason@ == "backpressure"@
            &&& flush.outcome !is Idle
            &&& calls_after.len() == calls.len() + 1
            &&& flush.outcome is Committed ==> after.aggregator@.len() == 0
                && after.pending_offsets@.len() == 0
        },
        report.flush is None ==> calls_after == calls,
        (report.flush matches Some(flush) ==> flush.outcome is Failed) ==> {
            &&& after.aggregator@ == counts_after_event(context, before.aggregator@, event)
            &&& after.pending_offsets@.contains_key(partition)
            &&& after.pending_offsets@[partition] == offset
            &&& after.pending_offsets@.contains_key(other)
                <==> before.pending_offsets@.contains_key(other)
            &&& before.pending_offsets@.contains_key(other) ==> after.pending_offsets@[other]
                == before.pending_offsets@[other]
        },
{
    let counts = counts_after_event(context, before.aggregator@, event);
    let pending = before.pending_offsets@.insert(partition, offset);
    assert(pending.contains_key(partition));
    if let Some(flush) = report.flush {
        flush::lemma_flush_hands_the_buffer_over_once(
            producer,
            timeout,
            calls,
            counts,
            pending,
            flush,
            calls_after,
            after.aggregator@,
            after.pending_offsets@,
        );
    }
}

/// The loop ends with a shutdown and with nothing else. A shutdown and a due timer flush
/// what the worker holds, once; a message without content, one that is no event, and a
/// failure of the consumer change nothing and flush nothing, and only the last is reported
/// as a failure. An event is reported on exactly where there was one, and is then handled
/// with its own offset, in the partition that the offset names.
pub proof fn lemma_step_answers_its_input<P: Producer + ?Sized, O: CommittableOffset>(
    context: &AppContext,
    producer: &P,
    timeout: Duration,
    calls: Seq<Call>,
    before: Worker<O>,
    input: Input<O>,
    report: StepReport,
    calls_after: Seq<Call>,
    after: Worker<O>,
)
    requires
        stepped(context, producer, timeout, calls, before, input, report, calls_after, after),
    ensures
        report.stop <==> input is Shutdown,
        report.receive_failed <==> input == Input::<O>::Received(Received::Failed),
        report.ingested is Some <==> (input is Received && input->Received_0 is Message),
        input is Shutdown ==> report.flush is Some && report.flush->0.reason@ == "shutdown"@,
        input is Tick ==> report.flush is Some && report.flush->0.reason@ == "timer"@,
        input is Shutdown || input is Tick ==> {
            let held = before.aggregator@.len() > 0 || before.pending_offsets@.len() > 0;
            &&& report.flush->0.outcome is Idle ==> {
                &&& calls_after == calls
                &&& before.aggregator@ == Map::<TupleView, u64>::empty()
                &&& before.pending_offsets@ == Map::<i32, O>::empty()
                &&& after.aggregator@ == before.aggregator@
                &&& after.pending_offsets@ == before.pending_offsets@
            }
            &&& report.flush->0.outcome !is Idle ==> {
                &&& calls_after.len() == calls.len() + 1
                &&& calls_after.last().result is Ok <==> report.flush->0.outcome is Committed
            }
            &&& held ==> report.flush->0.outcome !is Idle
            &&& report.flush->0.outcome is Committed ==> {
                &&& after.aggregator@ == Map::<TupleView, u64>::empty()
                &&& after.pending_offsets@ == Map::<i32, O>::empty()
            }
            &&& report.flush->0.outcome is Failed ==> {
                &&& after.aggregator@ == before.aggregator@
                &&& after.pending_offsets@ == before.pending_offsets@
            }
        },
        input matches Input::Received(Received::Message(event, offset)) ==> exists|partition: i32|
            #[trigger] call_ensures(O::partition, (&offset,), partition) && message_handled(
                context,
                producer,
                timeout,
                calls,
                before,
                event,
                partition,
                offset,
                report,
                calls_after,
                after,
            ),
        input is Received && input->Received_0 !is Message ==> {
            &&& report.flush is None
            &&& calls_after == calls
            &&& after.aggregator@ == before.aggregator@
            &&& after.pending_offsets@ == before.pending_offsets@
        },
{
    if input is Shutdown || input is Tick {
        flush::lemma_flush_hands_the_buffer_over_once(
            producer,
            timeout,
            calls,
            before.aggregator@,
            before.pending_offsets@,
            report.flush->0,
            calls_after,
            after.aggregator@,
            after.pending_offsets@,
        );
    }
}

} // verus!
