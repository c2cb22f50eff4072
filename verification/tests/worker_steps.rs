use std::collections::HashMap;
use std::sync::Mutex;
use std::time::Duration;

use property_values::aggregator::Aggregator;
use property_values::app_context::AppContext;
use property_values::config::{Config, TeamFilterMode, TeamList};
use property_values::flush::{
    begin_flush, flush, settle_flush, CommittableOffset, FlushOutcome, OffsetErr,
    FLUSH_REASON_BACKPRESSURE, FLUSH_REASON_SHUTDOWN, FLUSH_REASON_TIMER,
};
use property_values::producer::{Outlet, ProduceError, Producer};
use property_values::types::{Event, PropertyType, TupleKey};
use property_values::worker::{Ingested, Input, Received, Worker};

struct ScriptedProducer {
    failing: bool,
    batches: Mutex<Vec<Vec<(TupleKey, u64)>>>,
}

impl ScriptedProducer {
    fn new(failing: bool) -> Self {
        ScriptedProducer { failing, batches: Mutex::new(Vec::new()) }
    }
    fn batches(&self) -> Vec<Vec<(String, u64)>> {
        self.batches
            .lock()
            .unwrap()
            .iter()
            .map(|batch| {
                let mut items: Vec<(String, u64)> =
                    batch.iter().map(|(t, n)| (t.property_value.clone(), *n)).collect();
                items.sort();
                items
            })
            .collect()
    }
}

impl Producer for ScriptedProducer {
    fn produce_batch(
        &self,
        items: Vec<(TupleKey, u64)>,
        timeout: Duration,
    ) -> Result<(), ProduceError> {
        self.batches.lock().unwrap().push(items);
        if self.failing {
            Err(ProduceError::Timeout(timeout))
        } else {
            Ok(())
        }
    }
}

#[derive(Debug, PartialEq)]
struct Position {
    partition: i32,
    offset: i64,
    storable: bool,
}

impl CommittableOffset for Position {
    fn partition(&self) -> i32 {
        self.partition
    }
    fn commit(self) -> Result<(), OffsetErr> {
        if self.storable {
            Ok(())
        } else {
            Err(OffsetErr::Kafka(format!("offset {}", self.offset)))
        }
    }
}

fn at(partition: i32, offset: i64) -> Position {
    Position { partition, offset, storable: true }
}

fn context(mode: TeamFilterMode, teams: Vec<i64>, max_entries: usize) -> AppContext {
    AppContext::new(&Config {
        filter_mode: mode,
        filtered_teams: TeamList { teams },
        flush_interval_secs: 10,
        max_entries_per_partition: max_entries,
    })
}

fn event(team_id: i64, properties: &str) -> Event {
    Event {
        team_id,
        properties: Some(properties.to_string()),
        person_properties: None,
        group0_properties: None,
        group1_properties: None,
        group2_properties: None,
        group3_properties: None,
        group4_properties: None,
    }
}

fn tuple(value: &str) -> TupleKey {
    TupleKey {
        team_id: 2,
        property_type: PropertyType::Event,
        property_key: "k".to_string(),
        property_value: value.to_string(),
    }
}

fn timeout() -> Duration {
    Duration::from_secs(3)
}

fn message(team_id: i64, properties: &str, offset: Position) -> Input<Position> {
    Input::Received(Received::Message(event(team_id, properties), offset))
}

#[test]
fn message_is_counted_and_its_offset_noted() {
    let ctx = context(TeamFilterMode::OptOut, vec![], 100);
    let producer = ScriptedProducer::new(false);
    let mut worker: Worker<Position> = Worker::new();
    let report =
        worker.step(&ctx, &mut Outlet::new(&producer), timeout(), message(2, r#"{"a":"1","b":"2"}"#, at(4, 10)));
    assert!(!report.stop);
    assert!(!report.receive_failed);
    assert_eq!(report.ingested, Some(Ingested::Aggregated(2)));
    assert!(report.flush.is_none());
    assert_eq!(worker.aggregator.len(), 2);
    assert_eq!(worker.pending_offsets.get(&4), Some(&at(4, 10)));
    assert!(producer.batches().is_empty());
}

#[test]
fn newer_offset_replaces_older_one_of_its_partition() {
    let ctx = context(TeamFilterMode::OptOut, vec![], 100);
    let producer = ScriptedProducer::new(false);
    let mut worker: Worker<Position> = Worker::new();
    worker.step(&ctx, &mut Outlet::new(&producer), timeout(), message(2, "{}", at(0, 1)));
    worker.step(&ctx, &mut Outlet::new(&producer), timeout(), message(2, "{}", at(1, 5)));
    worker.step(&ctx, &mut Outlet::new(&producer), timeout(), message(2, "{}", at(0, 2)));
    assert_eq!(worker.pending_offsets.len(), 2);
    assert_eq!(worker.pending_offsets.get(&0), Some(&at(0, 2)));
    assert_eq!(worker.pending_offsets.get(&1), Some(&at(1, 5)));
}

#[test]
fn filtered_message_leaves_only_its_offset() {
    let ctx = context(TeamFilterMode::OptIn, vec![7], 100);
    let producer = ScriptedProducer::new(false);
    let mut worker: Worker<Position> = Worker::new();
    let report = worker.step(&ctx, &mut Outlet::new(&producer), timeout(), message(2, r#"{"a":"1"}"#, at(0, 1)));
    assert_eq!(report.ingested, Some(Ingested::Filtered));
    assert!(worker.aggregator.is_empty());
    assert_eq!(worker.pending_offsets.len(), 1);

    let report = worker.step(&ctx, &mut Outlet::new(&producer), timeout(), Input::Tick);
    let flushed = report.flush.unwrap();
    assert_eq!(flushed.reason, FLUSH_REASON_TIMER);
    assert_eq!(flushed.tuples, 0);
    assert!(matches!(flushed.outcome, FlushOutcome::Committed(ref errors) if errors.is_empty()));
    assert_eq!(producer.batches(), vec![Vec::<(String, u64)>::new()]);
    assert!(worker.pending_offsets.is_empty());
}

#[test]
fn full_buffer_flushes_at_once() {
    let ctx = context(TeamFilterMode::OptOut, vec![], 2);
    let producer = ScriptedProducer::new(false);
    let mut worker: Worker<Position> = Worker::new();
    let report = worker.step(&ctx, &mut Outlet::new(&producer), timeout(), message(2, r#"{"a":"1"}"#, at(0, 1)));
    assert!(report.flush.is_none());
    let report = worker.step(&ctx, &mut Outlet::new(&producer), timeout(), message(2, r#"{"a":"1"}"#, at(0, 2)));
    assert!(report.flush.is_none());
    let report = worker.step(&ctx, &mut Outlet::new(&producer), timeout(), message(2, r#"{"b":"2"}"#, at(0, 3)));
    let flushed = report.flush.unwrap();
    assert_eq!(flushed.reason, FLUSH_REASON_BACKPRESSURE);
    assert_eq!(flushed.tuples, 2);
    assert_eq!(producer.batches(), vec![vec![("1".to_string(), 2), ("2".to_string(), 1)]]);
    assert!(worker.aggregator.is_empty());
    assert!(worker.pending_offsets.is_empty());
}

#[test]
fn shutdown_flushes_and_stops() {
    let ctx = context(TeamFilterMode::OptOut, vec![], 100);
    let producer = ScriptedProducer::new(false);
    let mut worker: Worker<Position> = Worker::new();
    worker.step(&ctx, &mut Outlet::new(&producer), timeout(), message(2, r#"{"a":"1"}"#, at(0, 1)));
    let report = worker.step(&ctx, &mut Outlet::new(&producer), timeout(), Input::Shutdown);
    assert!(report.stop);
    let flushed = report.flush.unwrap();
    assert_eq!(flushed.reason, FLUSH_REASON_SHUTDOWN);
    assert_eq!(flushed.tuples, 1);
    assert!(worker.aggregator.is_empty());
}

#[test]
fn tick_without_anything_to_flush_is_idle() {
    let ctx = context(TeamFilterMode::OptOut, vec![], 100);
    let producer = ScriptedProducer::new(false);
    let mut worker: Worker<Position> = Worker::new();
    let report = worker.step(&ctx, &mut Outlet::new(&producer), timeout(), Input::Tick);
    assert!(matches!(report.flush.unwrap().outcome, FlushOutcome::Idle));
    assert!(producer.batches().is_empty());
}

#[test]
fn empty_malformed_and_failed_receives_change_nothing() {
    let ctx = context(TeamFilterMode::OptOut, vec![], 100);
    let producer = ScriptedProducer::new(false);
    let mut worker: Worker<Position> = Worker::new();
    worker.step(&ctx, &mut Outlet::new(&producer), timeout(), message(2, r#"{"a":"1"}"#, at(0, 1)));
    for (received, failed) in
        [(Received::Empty, false), (Received::Malformed, false), (Received::Failed, true)]
    {
        let report = worker.step(&ctx, &mut Outlet::new(&producer), timeout(), Input::Received(received));
        assert_eq!(report.receive_failed, failed);
        assert!(!report.stop);
        assert_eq!(report.ingested, None);
        assert!(report.flush.is_none());
        assert_eq!(worker.aggregator.len(), 1);
        assert_eq!(worker.pending_offsets.len(), 1);
    }
}

#[test]
fn failed_flush_reports_the_error_and_keeps_all() {
    let ctx = context(TeamFilterMode::OptOut, vec![], 1);
    let producer = ScriptedProducer::new(true);
    let mut worker: Worker<Position> = Worker::new();
    for offset in 1..4 {
        let report =
            worker.step(&ctx, &mut Outlet::new(&producer), timeout(), message(2, r#"{"a":"1"}"#, at(0, offset)));
        let outcome = report.flush.unwrap().outcome;
        assert!(matches!(outcome, FlushOutcome::Failed(ProduceError::Timeout(t)) if t == timeout()));
    }
    assert_eq!(worker.pending_offsets.get(&0), Some(&at(0, 3)));
    let recovered = ScriptedProducer::new(false);
    worker.step(&ctx, &mut Outlet::new(&recovered), timeout(), Input::Tick);
    assert_eq!(recovered.batches(), vec![vec![("1".to_string(), 3)]]);
}

#[test]
fn offsets_that_cannot_be_stored_are_reported_by_partition() {
    let mut aggregator = Aggregator::new();
    let mut pending: HashMap<i32, Position> = HashMap::new();
    pending.insert(0, at(0, 1));
    pending.insert(1, Position { partition: 1, offset: 8, storable: false });
    let producer = ScriptedProducer::new(false);
    let report =
        flush(&mut aggregator, &mut pending, &mut Outlet::new(&producer), timeout(), FLUSH_REASON_SHUTDOWN);
    match report.outcome {
        FlushOutcome::Committed(errors) => {
            assert_eq!(errors.len(), 1);
            assert_eq!(errors[0].0, 1);
            assert!(matches!(&errors[0].1, OffsetErr::Kafka(text) if text == "offset 8"));
        }
        other => panic!("unexpected outcome {:?}", other),
    }
    assert!(pending.is_empty());
}

#[test]
fn tuples_that_arrive_during_a_failed_flush_keep_their_counts() {
    let mut aggregator = Aggregator::new();
    aggregator.add(tuple("old"), 4);
    aggregator.add(tuple("both"), 2);
    let mut pending: HashMap<i32, Position> = HashMap::new();
    pending.insert(0, at(0, 1));

    let snapshot = begin_flush(&mut aggregator, &pending).unwrap();
    assert!(aggregator.is_empty());
    assert_eq!(snapshot.len(), 2);
    aggregator.record(tuple("both"));
    aggregator.record(tuple("new"));
    let error = ProduceError::PartialFailure { failed: 1, total: 2 };
    let settled = settle_flush(&mut aggregator, &mut pending, snapshot, Err(error));
    assert!(matches!(settled, Err(ProduceError::PartialFailure { failed: 1, total: 2 })));
    assert_eq!(pending.len(), 1);

    let mut counts: Vec<(String, u64)> =
        aggregator.drain().into_iter().map(|(t, n)| (t.property_value, n)).collect();
    counts.sort();
    assert_eq!(
        counts,
        vec![("both".to_string(), 3), ("new".to_string(), 1), ("old".to_string(), 4)]
    );
}

#[test]
fn settled_flush_hands_out_all_offsets() {
    let mut aggregator = Aggregator::new();
    let mut pending: HashMap<i32, Position> = HashMap::new();
    for partition in 0..5 {
        pending.insert(partition, at(partition, 100 + partition as i64));
    }
    let snapshot = begin_flush(&mut aggregator, &pending).unwrap();
    assert!(snapshot.is_empty());
    let mut offsets = settle_flush(&mut aggregator, &mut pending, snapshot, Ok(())).unwrap();
    offsets.sort_by_key(|(partition, _)| *partition);
    assert_eq!(offsets.len(), 5);
    for (i, (partition, offset)) in offsets.iter().enumerate() {
        assert_eq!(*partition, i as i32);
        assert_eq!(*offset, at(i as i32, 100 + i as i64));
    }
    assert!(pending.is_empty());
    assert!(begin_flush(&mut aggregator, &pending).is_none());
}

#[test]
fn counts_are_conserved_over_failures_and_deliveries() {
    let ctx = context(TeamFilterMode::OptOut, vec![], 1000);
    let failing = ScriptedProducer::new(true);
    let working = ScriptedProducer::new(false);
    let mut worker: Worker<Position> = Worker::new();
    for round in 0..6 {
        for n in 0..=round {
            worker.step(&ctx, &mut Outlet::new(&working), timeout(), message(2, r#"{"a":"x"}"#, at(0, n)));
        }
        let producer = if round % 2 == 0 { &failing } else { &working };
        worker.step(&ctx, &mut Outlet::new(producer), timeout(), Input::Tick);
    }
    let delivered: u64 = working.batches().iter().flatten().map(|(_, n)| *n).sum();
    assert_eq!(delivered, 21);
    assert!(worker.aggregator.is_empty());
    assert!(worker.pending_offsets.is_empty());
}

#[test]
fn accepted_and_held_counts_add_up_through_one_outlet() {
    let ctx = context(TeamFilterMode::OptOut, vec![], 2);
    let producer = ScriptedProducer::new(false);
    let mut outlet = Outlet::new(&producer);
    let mut worker: Worker<Position> = Worker::new();
    for n in 0..5 {
        let raw = format!(r#"{{"a":"{}"}}"#, n % 3);
        worker.step(&ctx, &mut outlet, timeout(), message(2, &raw, at(0, n)));
    }
    let accepted: Vec<Vec<(String, u64)>> = producer.batches();
    assert_eq!(
        accepted,
        vec![
            vec![("0".to_string(), 1), ("1".to_string(), 1)],
            vec![("0".to_string(), 1), ("2".to_string(), 1)],
        ]
    );
    let held: Vec<u64> = worker.aggregator.drain().into_iter().map(|(_, n)| n).collect();
    assert_eq!(held, vec![1]);
}

#[test]
fn producer_can_be_a_trait_object() {
    let producer: Box<dyn Producer> = Box::new(ScriptedProducer::new(false));
    let mut aggregator = Aggregator::new();
    aggregator.record(tuple("v"));
    let mut pending: HashMap<i32, Position> = HashMap::new();
    let report =
        flush(&mut aggregator, &mut pending, &mut Outlet::new(producer.as_ref()), timeout(), FLUSH_REASON_TIMER);
    assert_eq!(report.tuples, 1);
    assert!(matches!(report.outcome, FlushOutcome::Committed(_)));
    assert!(aggregator.is_empty());
}

#[test]
fn each_flush_calls_the_producer_once_and_idle_ones_do_not() {
    let ctx = context(TeamFilterMode::OptOut, vec![], 100);
    let producer = ScriptedProducer::new(false);
    let mut outlet = Outlet::new(&producer);
    let mut worker: Worker<Position> = Worker::new();
    worker.step(&ctx, &mut outlet, timeout(), Input::Tick);
    assert_eq!(producer.batches().len(), 0);
    worker.step(&ctx, &mut outlet, timeout(), message(2, r#"{"a":"1"}"#, at(0, 1)));
    worker.step(&ctx, &mut outlet, timeout(), Input::Received(Received::Failed));
    assert_eq!(producer.batches().len(), 0);
    worker.step(&ctx, &mut outlet, timeout(), Input::Tick);
    assert_eq!(producer.batches().len(), 1);
    worker.step(&ctx, &mut outlet, timeout(), Input::Shutdown);
    assert_eq!(producer.batches().len(), 1);
}

#[test]
fn outlet_hands_on_batch_timeout_and_result() {
    let producer = ScriptedProducer::new(true);
    let mut outlet = Outlet::new(&producer);
    let result = outlet.send(vec![(tuple("v"), 6)], timeout());
    assert!(matches!(result, Err(ProduceError::Timeout(t)) if t == timeout()));
    assert_eq!(producer.batches(), vec![vec![("v".to_string(), 6)]]);
}
