use std::collections::HashMap;
use std::sync::atomic::{AtomicBool, AtomicUsize, Ordering};
use std::sync::{Arc, Mutex};
use std::time::Duration;

use property_values::aggregator::Aggregator;
use property_values::flush::{flush, CommittableOffset, OffsetErr, FLUSH_REASON_TIMER};
use property_values::producer::{Outlet, ProduceError, Producer};
use property_values::types::{PropertyType, TupleKey};

/// Mock producer that records each batch it sees and can be configured
/// to fail on specific call indices.
struct MockProducer {
    calls: AtomicUsize,
    fail_on: Mutex<Vec<usize>>,
    seen: Mutex<Vec<Vec<(TupleKey, u64)>>>,
}

impl MockProducer {
    fn new() -> Self {
        Self {
            calls: AtomicUsize::new(0),
            fail_on: Mutex::new(Vec::new()),
            seen: Mutex::new(Vec::new()),
        }
    }
    fn fail_on(self, call_index: usize) -> Self {
        self.fail_on.lock().unwrap().push(call_index);
        self
    }
    fn call_count(&self) -> usize {
        self.calls.load(Ordering::SeqCst)
    }
    fn seen_total_records(&self) -> usize {
        self.seen.lock().unwrap().iter().map(|b| b.len()).sum()
    }
    fn last_batch(&self) -> Vec<(TupleKey, u64)> {
        self.seen
            .lock()
            .unwrap()
            .last()
            .cloned()
            .unwrap_or_default()
    }
}

impl Producer for MockProducer {
    fn produce_batch(
        &self,
        items: Vec<(TupleKey, u64)>,
        _timeout: Duration,
    ) -> Result<(), ProduceError> {
        let n = self.calls.fetch_add(1, Ordering::SeqCst) + 1;
        self.seen.lock().unwrap().push(items.clone());
        if self.fail_on.lock().unwrap().contains(&n) {
            let total = items.len().max(1);
            return Err(ProduceError::PartialFailure {
                failed: total,
                total,
            });
        }
        Ok(())
    }
}

struct TestOffset {
    partition: i32,
    committed: Arc<AtomicBool>,
}

impl TestOffset {
    fn new(partition: i32) -> (Self, Arc<AtomicBool>) {
        let committed = Arc::new(AtomicBool::new(false));
        (
            Self {
                partition,
                committed: committed.clone(),
            },
            committed,
        )
    }
}

impl CommittableOffset for TestOffset {
    fn partition(&self) -> i32 {
        self.partition
    }
    fn commit(self) -> Result<(), OffsetErr> {
        self.committed.store(true, Ordering::SeqCst);
        Ok(())
    }
}

fn tuple(team: i64, key: &str, value: &str) -> TupleKey {
    TupleKey {
        team_id: team,
        property_type: PropertyType::Event,
        property_key: key.to_string(),
        property_value: value.to_string(),
    }
}

fn populate(agg: &mut Aggregator, count: u64) {
    for i in 0..count {
        agg.record(tuple(2, "k", &format!("v{i}")));
    }
}

#[test]
fn successful_flush_drains_aggregator_and_commits_offsets() {
    let mut agg = Aggregator::new();
    populate(&mut agg, 5);

    let (offset_p0, committed_p0) = TestOffset::new(0);
    let (offset_p1, committed_p1) = TestOffset::new(1);
    let mut pending: HashMap<i32, TestOffset> = HashMap::new();
    pending.insert(0, offset_p0);
    pending.insert(1, offset_p1);

    let producer = MockProducer::new();
    flush(
        &mut agg,
        &mut pending,
        &mut Outlet::new(&producer),
        Duration::from_secs(1),
        FLUSH_REASON_TIMER,
    );

    assert!(agg.is_empty(), "aggregator should be drained after success");
    assert!(pending.is_empty(), "pending_offsets should be drained");
    assert!(committed_p0.load(Ordering::SeqCst));
    assert!(committed_p1.load(Ordering::SeqCst));
    assert_eq!(producer.call_count(), 1);
    assert_eq!(producer.seen_total_records(), 5);
}

#[test]
fn failed_flush_restores_counts_and_keeps_pending_offsets() {
    let mut agg = Aggregator::new();
    populate(&mut agg, 3);

    let (offset, committed) = TestOffset::new(0);
    let mut pending: HashMap<i32, TestOffset> = HashMap::new();
    pending.insert(0, offset);

    let producer = MockProducer::new().fail_on(1);
    flush(
        &mut agg,
        &mut pending,
        &mut Outlet::new(&producer),
        Duration::from_secs(1),
        FLUSH_REASON_TIMER,
    );

    assert_eq!(
        agg.len(),
        3,
        "aggregator must restore drained counts when produce fails"
    );
    assert_eq!(
        pending.len(),
        1,
        "pending_offsets must NOT be drained when produce fails"
    );
    assert!(
        !committed.load(Ordering::SeqCst),
        "offsets must NOT commit when produce fails"
    );
}

#[test]
fn failed_then_successful_flush_eventually_commits_offsets() {
    let mut agg = Aggregator::new();
    populate(&mut agg, 4);

    let (offset, committed) = TestOffset::new(0);
    let mut pending: HashMap<i32, TestOffset> = HashMap::new();
    pending.insert(0, offset);

    let producer = MockProducer::new().fail_on(1);

    flush(
        &mut agg,
        &mut pending,
        &mut Outlet::new(&producer),
        Duration::from_secs(1),
        FLUSH_REASON_TIMER,
    );
    assert!(!agg.is_empty());
    assert!(!committed.load(Ordering::SeqCst));

    flush(
        &mut agg,
        &mut pending,
        &mut Outlet::new(&producer),
        Duration::from_secs(1),
        FLUSH_REASON_TIMER,
    );
    assert!(agg.is_empty());
    assert!(pending.is_empty());
    assert!(committed.load(Ordering::SeqCst));
    assert_eq!(producer.call_count(), 2);
}

#[test]
fn empty_aggregator_with_pending_offsets_commits_offsets() {
    // Pure filter-only window: no aggregator counts, only offsets from
    // filtered events. With no prior failed flush there are no records
    // in flight, so it is safe to commit offsets without producing.
    let mut agg = Aggregator::new();
    let (offset, committed) = TestOffset::new(0);
    let mut pending: HashMap<i32, TestOffset> = HashMap::new();
    pending.insert(0, offset);

    let producer = MockProducer::new();
    flush(
        &mut agg,
        &mut pending,
        &mut Outlet::new(&producer),
        Duration::from_secs(1),
        FLUSH_REASON_TIMER,
    );

    assert!(pending.is_empty());
    assert!(committed.load(Ordering::SeqCst));
    assert_eq!(producer.call_count(), 1);
    assert_eq!(producer.seen_total_records(), 0);
}

#[test]
fn empty_aggregator_empty_offsets_is_noop() {
    let mut agg = Aggregator::new();
    let mut pending: HashMap<i32, TestOffset> = HashMap::new();
    let producer = MockProducer::new();
    flush(
        &mut agg,
        &mut pending,
        &mut Outlet::new(&producer),
        Duration::from_secs(1),
        FLUSH_REASON_TIMER,
    );
    assert_eq!(producer.call_count(), 0);
}

#[test]
fn restored_counts_are_emitted_on_next_successful_flush() {
    // Window N: counts captured, produce fails, counts restored.
    // Window N+1: produce succeeds and emits the restored counts.
    let mut agg = Aggregator::new();
    agg.record(tuple(2, "k1", "v1"));
    agg.record(tuple(2, "k1", "v1"));

    let (offset, _committed) = TestOffset::new(0);
    let mut pending: HashMap<i32, TestOffset> = HashMap::new();
    pending.insert(0, offset);

    let producer = MockProducer::new().fail_on(1);

    flush(
        &mut agg,
        &mut pending,
        &mut Outlet::new(&producer),
        Duration::from_secs(1),
        FLUSH_REASON_TIMER,
    );
    flush(
        &mut agg,
        &mut pending,
        &mut Outlet::new(&producer),
        Duration::from_secs(1),
        FLUSH_REASON_TIMER,
    );

    let batch = producer.last_batch();
    assert_eq!(batch.len(), 1);
    assert_eq!(batch[0].1, 2, "restored count must equal original count");
}

#[test]
fn restored_counts_merge_with_new_counts_in_next_window() {
    // After failure, a new event landing on the SAME tuple as a
    // restored one must merge counts, not overwrite.
    let mut agg = Aggregator::new();
    agg.record(tuple(2, "k1", "v1"));

    let (offset, _committed) = TestOffset::new(0);
    let mut pending: HashMap<i32, TestOffset> = HashMap::new();
    pending.insert(0, offset);

    let producer = MockProducer::new().fail_on(1);
    flush(
        &mut agg,
        &mut pending,
        &mut Outlet::new(&producer),
        Duration::from_secs(1),
        FLUSH_REASON_TIMER,
    );

    agg.record(tuple(2, "k1", "v1"));

    flush(
        &mut agg,
        &mut pending,
        &mut Outlet::new(&producer),
        Duration::from_secs(1),
        FLUSH_REASON_TIMER,
    );

    let batch = producer.last_batch();
    assert_eq!(batch.len(), 1);
    assert_eq!(
        batch[0].1, 2,
        "restored count + post-restore event should merge into one tuple"
    );
}

#[test]
fn stale_offsets_only_commit_once_produce_succeeds() {
    // Window N fails
    // (counts restored, offsets retained). Window N+1 has all filtered
    // events (no new counts) but adds a newer offset on top of the
    // retained one. Until the restored counts are durably produced,
    // offsets MUST NOT commit. After produce succeeds, they advance to
    // the newer offset.
    let mut agg = Aggregator::new();
    agg.record(tuple(2, "k1", "v1"));

    let (window_n_offset, committed_n) = TestOffset::new(0);
    let mut pending: HashMap<i32, TestOffset> = HashMap::new();
    pending.insert(0, window_n_offset);

    let producer = MockProducer::new().fail_on(1);

    // Window N: produce fails. Counts restored. Offset retained.
    flush(
        &mut agg,
        &mut pending,
        &mut Outlet::new(&producer),
        Duration::from_secs(1),
        FLUSH_REASON_TIMER,
    );
    assert_eq!(agg.len(), 1);
    assert_eq!(pending.len(), 1);
    assert!(!committed_n.load(Ordering::SeqCst));

    // Simulate Window N+1's filter-only traffic: a NEWER offset
    // replaces the retained one on the same partition. No new counts.
    let (window_n_plus_1_offset, committed_n_plus_1) = TestOffset::new(0);
    pending.insert(0, window_n_plus_1_offset);

    // Window N+1: aggregator still has restored counts. Produce
    // succeeds this time and advances offsets.
    flush(
        &mut agg,
        &mut pending,
        &mut Outlet::new(&producer),
        Duration::from_secs(1),
        FLUSH_REASON_TIMER,
    );
    assert!(agg.is_empty());
    assert!(pending.is_empty());
    // The OLD offset object was dropped when we overwrote it. The NEW
    // offset is the one that should commit.
    assert!(committed_n_plus_1.load(Ordering::SeqCst));
}

#[test]
fn produce_error_does_not_advance_offsets_under_repeated_failure() {
    // Three consecutive failures: aggregator keeps state, offsets stay
    // in pending across all of them. This is the "broker is gone for a
    // while" scenario.
    let mut agg = Aggregator::new();
    agg.record(tuple(2, "k1", "v1"));

    let (offset, committed) = TestOffset::new(0);
    let mut pending: HashMap<i32, TestOffset> = HashMap::new();
    pending.insert(0, offset);

    let producer = MockProducer::new().fail_on(1).fail_on(2).fail_on(3);

    for _ in 0..3 {
        flush(
            &mut agg,
            &mut pending,
            &mut Outlet::new(&producer),
            Duration::from_secs(1),
            FLUSH_REASON_TIMER,
        );
    }

    assert_eq!(agg.len(), 1, "counts persist across repeated failures");
    assert_eq!(pending.len(), 1, "offsets persist across repeated failures");
    assert!(!committed.load(Ordering::SeqCst));
    assert_eq!(producer.call_count(), 3);
}
