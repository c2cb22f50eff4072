use std::time::Duration;

use property_values::app_context::AppContext;
use property_values::config::{Config, TeamFilterMode, TeamList};
use property_values::decimal::{natural_to_decimal, to_decimal};
use property_values::producer::{
    batch_result, message_key, output_message, partial_failure_message, plan_batch,
    timeout_message, Delivery, ProduceError,
};
use property_values::types::{PropertyType, TupleKey};

fn config(mode: TeamFilterMode, teams: Vec<i64>) -> Config {
    Config {
        filter_mode: mode,
        filtered_teams: TeamList { teams },
        flush_interval_secs: 90,
        max_entries_per_partition: 12,
    }
}

fn tuple(team_id: i64, property_type: PropertyType) -> TupleKey {
    TupleKey {
        team_id,
        property_type,
        property_key: "key".to_string(),
        property_value: "value".to_string(),
    }
}

#[test]
fn context_takes_its_settings_from_the_config() {
    let context = AppContext::new(&config(TeamFilterMode::OptIn, vec![3, -4]));
    assert_eq!(context.filter_mode, TeamFilterMode::OptIn);
    assert_eq!(context.filtered_teams.teams, vec![3, -4]);
    assert_eq!(context.flush_interval, Duration::from_secs(90));
    assert_eq!(context.flush_interval.as_millis(), 90_000);
    assert_eq!(context.max_entries_per_partition, 12);
}

#[test]
fn opt_in_processes_the_listed_teams() {
    let context = AppContext::new(&config(TeamFilterMode::OptIn, vec![3, -4]));
    assert!(context.should_process(3));
    assert!(context.should_process(-4));
    assert!(!context.should_process(4));
    let none = AppContext::new(&config(TeamFilterMode::OptIn, vec![]));
    assert!(!none.should_process(3));
}

#[test]
fn opt_out_processes_all_but_the_listed_teams() {
    let context = AppContext::new(&config(TeamFilterMode::OptOut, vec![3, -4]));
    assert!(!context.should_process(3));
    assert!(!context.should_process(-4));
    assert!(context.should_process(4));
    let none = AppContext::new(&config(TeamFilterMode::OptOut, vec![]));
    assert!(none.should_process(3));
}

#[test]
fn property_types_have_their_names() {
    let names: Vec<&str> = [
        PropertyType::Event,
        PropertyType::Person,
        PropertyType::Group0,
        PropertyType::Group1,
        PropertyType::Group2,
        PropertyType::Group3,
        PropertyType::Group4,
    ]
    .iter()
    .map(|t| t.as_str())
    .collect();
    assert_eq!(
        names,
        vec!["event", "person", "group_0", "group_1", "group_2", "group_3", "group_4"]
    );
}

#[test]
fn decimal_text_is_that_of_the_standard_library() {
    for n in [0, 7, 9, 10, 42, 100, 1234567890, -1, -10, -987, i64::MAX, i64::MIN] {
        assert_eq!(to_decimal(n), n.to_string());
    }
}

#[test]
fn message_carries_tuple_and_count() {
    let message = output_message(tuple(-12, PropertyType::Group1), 33);
    assert_eq!(message.team_id, -12);
    assert_eq!(message.property_type, "group_1");
    assert_eq!(message.property_key, "key");
    assert_eq!(message.property_value, "value");
    assert_eq!(message.property_count, 33);
    assert_eq!(message_key(&message), "-12");
}

#[test]
fn empty_batch_needs_no_records() {
    assert!(plan_batch(vec![]).is_none());
}

#[test]
fn batch_becomes_one_keyed_record_per_tuple() {
    let plan = plan_batch(vec![
        (tuple(5, PropertyType::Event), 1),
        (tuple(6, PropertyType::Person), 2),
        (tuple(5, PropertyType::Person), 3),
    ])
    .unwrap();
    let seen: Vec<(&str, &str, u64)> = plan
        .iter()
        .map(|(key, m)| (key.as_str(), m.property_type.as_str(), m.property_count))
        .collect();
    assert_eq!(seen, vec![("5", "event", 1), ("6", "person", 2), ("5", "person", 3)]);
}

#[test]
fn batch_is_delivered_when_all_records_are_acknowledged() {
    let timeout = Duration::from_secs(2);
    assert!(batch_result(2, timeout, &Delivery::Reported(vec![true, true])).is_ok());
    assert!(batch_result(0, timeout, &Delivery::Reported(vec![])).is_ok());
}

#[test]
fn unacknowledged_records_are_counted() {
    let result = batch_result(
        4,
        Duration::from_secs(2),
        &Delivery::Reported(vec![true, false, true, false]),
    );
    assert!(matches!(result, Err(ProduceError::PartialFailure { failed: 2, total: 4 })));
}

#[test]
fn time_out_reports_the_time_allowed() {
    let timeout = Duration::from_millis(250);
    let result = batch_result(4, timeout, &Delivery::TimedOut);
    assert!(matches!(result, Err(ProduceError::Timeout(t)) if t == timeout));
}

#[test]
fn errors_have_their_texts() {
    let partial = ProduceError::PartialFailure { failed: 3, total: 120 };
    assert_eq!(partial.message(), "3/120 records failed delivery");
    assert_eq!(partial_failure_message(0, 0), "0/0 records failed delivery");
    let timeout = ProduceError::Timeout(Duration::from_millis(1500));
    assert_eq!(timeout.message(), "kafka produce timed out after 1.5s");
    assert_eq!(timeout_message("2s"), "kafka produce timed out after 2s");
}

#[test]
fn decimal_text_of_natural_numbers() {
    for n in [0, 9, 10, 305, u64::MAX] {
        assert_eq!(natural_to_decimal(n), n.to_string());
    }
}
