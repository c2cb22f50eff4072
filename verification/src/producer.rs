//! The output stage: what a batch becomes on the output topic, and when it counts
//! as delivered.

use std::time::Duration;

use vstd::prelude::*;

use crate::decimal;
use crate::types::{OutputMessage, TupleKey, TupleView};

verus! {

/// Why a batch does not count as delivered.
#[derive(Debug)]
pub enum ProduceError {
    /// Not all acknowledgments had arrived after this time.
    Timeout(Duration),
    /// So many records of so many were not delivered.
    PartialFailure { failed: usize, total: usize },
}

/// The text of a timeout, given the text of its duration.
pub open spec fn timeout_text(duration: Seq<char>) -> Seq<char> {
    "kafka produce timed out after "@ + duration
}

/// The text of a partial failure.
pub open spec fn partial_failure_text(failed: nat, total: nat) -> Seq<char> {
    decimal::digits(failed) + "/"@ + decimal::digits(total) + " records failed delivery"@
}

/// The text of a timeout, given the text of its duration.
pub fn timeout_message(duration: &str) -> (text: String)
    ensures
        text@ == timeout_text(duration@),
{
    "kafka produce timed out after ".to_owned().concat(duration)
}

/// The text of a partial failure.
pub fn partial_failure_message(failed: usize, total: usize) -> (text: String)
    ensures
        text@ == partial_failure_text(failed as nat, total as nat),
{
    decimal::natural_to_decimal(failed as u64).concat("/").concat(
        decimal::natural_to_decimal(total as u64).as_str(),
    ).concat(" records failed delivery")
}

/// The text that `std::time::Duration`'s own `Debug` writes.
///
/// Nothing is claimed of it: the standard library documents that the `Debug` output of
/// its types is not stable, so what it looks like stays unsaid.
#[verifier::external_body]
fn duration_text(duration: Duration) -> (text: String) {
    format!("{:?}", duration)
}

/// `shown` is a text that `Duration`'s own `Debug` writes for `duration`.
pub closed spec fn shows(shown: String, duration: Duration) -> bool {
    call_ensures(duration_text, (duration,), shown)
}

impl ProduceError {
    /// The text of the error. A timeout names its duration as `Duration` displays it
    /// for debugging.
    pub fn message(&self) -> (text: String)
        ensures
            match self {
                ProduceError::Timeout(timeout) => exists|shown: String| #[trigger]
                    shows(shown, *timeout) && text@ == timeout_text(shown@),
                ProduceError::PartialFailure { failed, total } => text@ == partial_failure_text(
                    *failed as nat,
                    *total as nat,
                ),
            },
            match self {
                ProduceError::Timeout(timeout) => exists|shown: String| #[trigger]
                    shows(shown, *timeout) && text@ == "kafka produce timed out after "@ + shown@,
                ProduceError::PartialFailure { failed, total } => text@ == decimal::digits(
                    *failed as nat,
                ) + "/"@ + decimal::digits(*total as nat) + " records failed delivery"@,
            },
    {
        match self {
            ProduceError::Timeout(timeout) => {
                let shown = duration_text(*timeout);
                assert(shows(shown, *timeout));
                timeout_message(shown.as_str())
            },
            ProduceError::PartialFailure { failed, total } => partial_failure_message(
                *failed,
                *total,
            ),
        }
    }
}

/// The output stage that a worker flushes to.
///
/// Implementations must wait for broker acknowledgment of every record before
/// returning `Ok`, otherwise the worker's offset commit step would advance past
/// records that were never durable.
///
/// What a batch is made of is a parameter, so that code which hands batches on can be
/// written for batches that it cannot look into or copy.
pub trait Producer<B = Vec<(TupleKey, u64)>>: Send + Sync {
    fn produce_batch(&self, items: B, timeout: Duration) -> Result<(), ProduceError>;
}

/// One call of `Producer::produce_batch`: what it was handed and what it returned.
#[verifier::ext_equal]
pub struct Call<B = Vec<(TupleKey, u64)>> {
    pub items: B,
    pub timeout: Duration,
    pub result: Result<(), ProduceError>,
}

/// The only way to a producer for the code that flushes: every call goes through
/// `send`, and `calls` lists them all, in order.
///
/// The producer takes a batch by value, and an outlet knows nothing of the type of its
/// batches: it can neither make one nor copy one. So each batch given to `send` reaches
/// the producer at most once; and it does so once, since the contract of `send` says
/// that the producer returned for that very batch.
pub struct Outlet<'a, P: Producer<B> + ?Sized, B = Vec<(TupleKey, u64)>> {
    producer: &'a P,
    calls: Ghost<Seq<Call<B>>>,
}

impl<'a, B, P: Producer<B> + ?Sized> Outlet<'a, P, B> {
    /// The producer behind the outlet.
    pub closed spec fn producer(&self) -> &'a P {
        self.producer
    }

    /// The calls that have gone through the outlet.
    pub closed spec fn calls(&self) -> Seq<Call<B>> {
        self.calls@
    }

    /// An outlet through which nothing has gone yet.
    pub fn new(producer: &'a P) -> (outlet: Outlet<'a, P, B>)
        ensures
            outlet.producer() == producer,
            outlet.calls() == Seq::<Call<B>>::empty(),
    {
        Outlet { producer, calls: Ghost(Seq::empty()) }
    }

    /// Hands a batch to the producer, once.
    pub fn send(&mut self, items: B, timeout: Duration) -> (result: Result<(), ProduceError>)
        ensures
            final(self).producer() == old(self).producer(),
            final(self).calls() == old(self).calls().push(Call { items, timeout, result }),
            call_ensures(P::produce_batch, (old(self).producer(), items, timeout), result),
    {
        let ghost handed = items;
        let result = self.producer.produce_batch(items, timeout);
        self.calls = Ghost(self.calls@.push(Call { items: handed, timeout, result }));
        result
    }
}

/// An outlet hands on batches of every type alike, also of one whose values can be
/// neither made nor copied: what `send` was given is what the producer took, and that is
/// the one call that is added. A second call would need a second batch.
pub proof fn lemma_outlet_hands_on_any_batch<'a, B, P: Producer<B> + ?Sized>(
    outlet: &mut Outlet<'a, P, B>,
    items: B,
    timeout: Duration,
    result: Result<(), ProduceError>,
)
    requires
        call_ensures(Outlet::<'a, P, B>::send, (outlet, items, timeout), result),
    ensures
        final(outlet).calls() == old(outlet).calls().push(Call { items, timeout, result }),
        call_ensures(P::produce_batch, (old(outlet).producer(), items, timeout), result),
{
}

/// What an `OutputMessage` stands for.
#[verifier::ext_equal]
pub struct MessageView {
    pub team_id: i64,
    pub property_type: Seq<char>,
    pub property_key: Seq<char>,
    pub property_value: Seq<char>,
    pub property_count: u64,
}

impl View for OutputMessage {
    type V = MessageView;

    open spec fn view(&self) -> MessageView {
        MessageView {
            team_id: self.team_id,
            property_type: self.property_type@,
            property_key: self.property_key@,
            property_value: self.property_value@,
            property_count: self.property_count,
        }
    }
}

/// The message that carries the count of a tuple.
pub open spec fn message_of(tuple: TupleView, count: u64) -> MessageView {
    MessageView {
        team_id: tuple.team_id,
        property_type: tuple.property_type.name(),
        property_key: tuple.property_key,
        property_value: tuple.property_value,
        property_count: count,
    }
}

/// The key under which a message is sent: the decimal text of its team.
pub open spec fn key_of(message: MessageView) -> Seq<char> {
    decimal::decimal(message.team_id as int)
}

/// The key under which a message is sent.
pub fn message_key(message: &OutputMessage) -> (key: String)
    ensures
        key@ == key_of(message@),
{
    decimal::to_decimal(message.team_id)
}

/// The message that carries the count of a tuple.
pub fn output_message(tuple: TupleKey, count: u64) -> (message: OutputMessage)
    ensures
        message@ == message_of(tuple@, count),
        message.team_id == tuple.team_id,
        message.property_type@ == tuple.property_type.name(),
        message.property_key@ == tuple.property_key@,
        message.property_value@ == tuple.property_value@,
        message.property_count == count,
{
    OutputMessage {
        team_id: tuple.team_id,
        property_type: tuple.property_type.as_str().to_owned(),
        property_key: tuple.property_key,
        property_value: tuple.property_value,
        property_count: count,
    }
}

/// The records that a batch is sent as, each with its key; `None` where there is
/// nothing to send.
pub fn plan_batch(items: Vec<(TupleKey, u64)>) -> (plan: Option<Vec<(String, OutputMessage)>>)
    ensures
        plan is None <==> items@.len() == 0,
        plan matches Some(records) ==> {
            &&& records@.len() == items@.len()
            &&& forall|i: int|
                0 <= i < items@.len() ==> {
                    &&& (#[trigger] records@[i]).1@ == message_of(items@[i].0@, items@[i].1)
                    &&& records@[i].0@ == key_of(records@[i].1@)
                    &&& records@[i].1.team_id == items@[i].0.team_id
                    &&& records@[i].1.property_type@ == items@[i].0.property_type.name()
                    &&& records@[i].1.property_key@ == items@[i].0.property_key@
                    &&& records@[i].1.property_value@ == items@[i].0.property_value@
                    &&& records@[i].1.property_count == items@[i].1
                }
        },
{
    if items.is_empty() {
        return None;
    }
    let ghost all = items@;
    let mut records: Vec<(String, OutputMessage)> = Vec::new();
    for item in iter: items
        invariant
            iter.seq() == all,
            records@.len() == iter.index(),
            forall|i: int|
                0 <= i < records@.len() ==> {
                    &&& (#[trigger] records@[i]).1@ == message_of(all[i].0@, all[i].1)
                    &&& records@[i].0@ == key_of(records@[i].1@)
                    &&& records@[i].1.team_id == all[i].0.team_id
                    &&& records@[i].1.property_type@ == all[i].0.property_type.name()
                    &&& records@[i].1.property_key@ == all[i].0.property_key@
                    &&& records@[i].1.property_value@ == all[i].0.property_value@
                    &&& records@[i].1.property_count == all[i].1
                },
    {
        let (tuple, count) = item;
        let message = output_message(tuple, count);
        let key = message_key(&message);
        records.push((key, message));
    }
    Some(records)
}

/// How the sending of a batch ended.
#[derive(Debug)]
pub enum Delivery {
    /// The time was up before every record had been reported on.
    TimedOut,
    /// For each record whether the broker acknowledged it.
    Reported(Vec<bool>),
}

/// How many records were not acknowledged.
pub open spec fn failures(acknowledged: Seq<bool>) -> nat {
    acknowledged.filter(|ack: bool| !ack).len()
}

/// Whether a batch of `total` records counts as delivered.
pub fn batch_result(total: usize, timeout: Duration, delivery: &Delivery) -> (result: Result<
    (),
    ProduceError,
>)
    ensures
        match delivery {
            Delivery::TimedOut => result == Err::<(), _>(ProduceError::Timeout(timeout)),
            Delivery::Reported(acknowledged) => result == if failures(acknowledged@) > 0 {
                Err(
                    ProduceError::PartialFailure {
                        failed: failures(acknowledged@) as usize,
                        total,
                    },
                )
            } else {
                Ok(())
            },
        },
        delivery matches Delivery::Reported(acknowledged) ==> failures(acknowledged@)
            <= acknowledged@.len(),
{
    let acknowledged = match delivery {
        Delivery::TimedOut => {
            return Err(ProduceError::Timeout(timeout));
        },
        Delivery::Reported(acknowledged) => acknowledged,
    };
    let mut failed: usize = 0;
    proof {
        reveal(Seq::filter);
    }
    for i in 0..acknowledged.len()
        invariant
            failed == failures(acknowledged@.take(i as int)),
            failed <= i,
    {
        proof {
            reveal(Seq::filter);
            assert(acknowledged@.take(i + 1).drop_last() =~= acknowledged@.take(i as int));
        }
        if !acknowledged[i] {
            failed += 1;
        }
    }
    assert(acknowledged@.take(acknowledged@.len() as int) =~= acknowledged@);
    if failed > 0 {
        return Err(ProduceError::PartialFailure { failed, total });
    }
    Ok(())
}

/// A batch that was reported on counts as delivered exactly where every record was
/// acknowledged.
pub proof fn lemma_delivered_means_all_acknowledged(acknowledged: Seq<bool>)
    ensures
        failures(acknowledged) == 0 <==> forall|i: int|
            0 <= i < acknowledged.len() ==> #[trigger] acknowledged[i],
    decreases acknowledged.len(),
{
    reveal(Seq::filter);
    if acknowledged.len() > 0 {
        let shorter = acknowledged.drop_last();
        lemma_delivered_means_all_acknowledged(shorter);
        assert(forall|i: int| 0 <= i < shorter.len() ==> shorter[i] == acknowledged[i]);
        if forall|i: int| 0 <= i < acknowledged.len() ==> #[trigger] acknowledged[i] {
            assert(forall|i: int| 0 <= i < shorter.len() ==> #[trigger] shorter[i]);
            assert(acknowledged.last());
        }
        if failures(acknowledged) == 0 {
            assert(acknowledged.last());
            assert forall|i: int| 0 <= i < acknowledged.len() implies #[trigger] acknowledged[i] by {
                if i < shorter.len() {
                    assert(shorter[i]);
                }
            }
        }
    }
}

/// The records that count as not delivered are those at whose places no acknowledgment
/// stands.
pub proof fn lemma_failures_are_the_missing_acknowledgments(
    acknowledged: Seq<bool>,
    missing: Set<int>,
)
    requires
        forall|i: int| #[trigger]
            missing.contains(i) <==> 0 <= i < acknowledged.len() && !acknowledged[i],
    ensures
        missing.finite(),
        failures(acknowledged) == missing.len(),
    decreases acknowledged.len(),
{
    reveal(Seq::filter);
    if acknowledged.len() == 0 {
        assert(missing =~= Set::empty());
    } else {
        let shorter = acknowledged.drop_last();
        let last = acknowledged.len() - 1;
        lemma_failures_are_the_missing_acknowledgments(shorter, missing.remove(last));
        if missing.contains(last) {
            assert(missing =~= missing.remove(last).insert(last));
        } else {
            assert(missing =~= missing.remove(last));
        }
    }
}

/// A message is sent under the decimal text of its team: the digits, and a minus sign
/// before them where the team is negative.
pub proof fn lemma_key_is_the_team_in_decimal(message: MessageView)
    ensures
        message.team_id >= 0 ==> key_of(message) == decimal::digits(message.team_id as nat),
        message.team_id < 0 ==> key_of(message).len() > 0 && key_of(message)[0] == '-'
            && key_of(message).skip(1) == decimal::digits((-message.team_id) as nat),
{
    if message.team_id >= 0 {
        decimal::lemma_decimal_is_signed_digits(message.team_id as nat);
    } else {
        decimal::lemma_decimal_is_signed_digits((-message.team_id) as nat);
    }
}

/// Messages share a key exactly where they are of one team.
pub proof fn lemma_keys_separate_teams(a: MessageView, b: MessageView)
    ensures
        key_of(a) == key_of(b) <==> a.team_id == b.team_id,
{
    decimal::lemma_decimal_is_injective(a.team_id as int, b.team_id as int);
}

/// A record that carries the count of a tuple shows, field by field, the tuple's team,
/// the name of its type, its key as the key, its value as the value, and the count.
pub proof fn lemma_record_repeats_the_tuple(message: OutputMessage, tuple: TupleKey, count: u64)
    requires
        message@ == message_of(tuple@, count),
    ensures
        message.team_id == tuple.team_id,
        message.property_type@ == tuple.property_type.name(),
        message.property_key@ == tuple.property_key@,
        message.property_value@ == tuple.property_value@,
        message.property_count == count,
{
    let shown = message@;
    assert(shown.property_key == message.property_key@);
    assert(shown.property_value == message.property_value@);
}

/// The message of a tuple has the tuple's team, key and value, the name of its type, and
/// the count.
pub proof fn lemma_message_repeats_the_tuple(tuple: TupleView, count: u64)
    ensures
        message_of(tuple, count).team_id == tuple.team_id,
        message_of(tuple, count).property_type == tuple.property_type.name(),
        message_of(tuple, count).property_key == tuple.property_key,
        message_of(tuple, count).property_value == tuple.property_value,
        message_of(tuple, count).property_count == count,
{
}

/// A message shows the fields of its record as they are.
pub proof fn lemma_message_shows_its_fields(message: OutputMessage)
    ensures
        message@.team_id == message.team_id,
        message@.property_type == message.property_type@,
        message@.property_key == message.property_key@,
        message@.property_value == message.property_value@,
        message@.property_count == message.property_count,
{
}

/// A message says which tuple it counts, and how often.
pub proof fn lemma_message_determines_tuple(a: TupleView, m: u64, b: TupleView, n: u64)
    ensures
        message_of(a, m) == message_of(b, n) <==> a == b && m == n,
{
    crate::types::lemma_property_type_names_are_distinct(a.property_type, b.property_type);
}

} // verus!
