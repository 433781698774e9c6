use mqtt_bridge::{DatabaseService, StoreError};

fn values_of(store: &DatabaseService, topic: &str, limit: usize) -> Vec<String> {
    store
        .get_last_values(topic, Some(limit))
        .into_iter()
        .map(|(v, _)| v)
        .collect()
}

#[test]
fn retention_keeps_newest_three() {
    let mut store = DatabaseService::new();
    store.add_or_update_topic("sensor/temp", None, 3, 1000).unwrap();
    for (i, v) in ["10", "11", "12", "13"].iter().enumerate() {
        assert!(store.insert_value("sensor/temp", v, i as u64));
    }
    assert_eq!(values_of(&store, "sensor/temp", 10), vec!["13", "12", "11"]);
}

#[test]
fn last_value_of_unknown_topic_is_none() {
    let store = DatabaseService::new();
    assert_eq!(store.get_last_value("unknown/topic"), None);
}

#[test]
fn insert_into_unregistered_topic_is_dropped() {
    let mut store = DatabaseService::new();
    assert!(!store.insert_value("nobody/here", "1", 5));
    assert_eq!(store.get_last_value("nobody/here"), None);
    assert!(store.get_last_values("nobody/here", None).is_empty());
}

#[test]
fn upsert_twice_keeps_one_row_with_latest_settings() {
    let mut store = DatabaseService::new();
    store.add_or_update_topic("a/b", None, 5, 100).unwrap();
    store.add_or_update_topic("a/b", Some("a"), 2, 200).unwrap();
    assert_eq!(store.topic_rows(), 1);
    let row = store.topic("a/b").unwrap();
    assert_eq!(row.max_values, 2);
    assert_eq!(row.query_frequency_ms, 200);
    assert_eq!(row.parent_topic.as_deref(), Some("a"));
    assert_eq!(row.id, 1);
}

#[test]
fn zero_cap_is_refused() {
    let mut store = DatabaseService::new();
    assert_eq!(
        store.add_or_update_topic("t", None, 0, 10),
        Err(StoreError::InvalidMaxValues)
    );
    assert_eq!(store.topic_rows(), 0);
}

#[test]
fn lowering_the_cap_evicts_oldest() {
    let mut store = DatabaseService::new();
    store.add_or_update_topic("t", None, 4, 10).unwrap();
    for (i, v) in ["a", "b", "c", "d"].iter().enumerate() {
        store.insert_value("t", v, i as u64);
    }
    store.add_or_update_topic("t", None, 2, 10).unwrap();
    assert_eq!(values_of(&store, "t", 10), vec!["d", "c"]);
}

#[test]
fn limit_bounds_the_answer() {
    let mut store = DatabaseService::new();
    store.add_or_update_topic("t", None, 10, 10).unwrap();
    for (i, v) in ["1", "2", "3", "4", "5"].iter().enumerate() {
        store.insert_value("t", v, 100 + i as u64);
    }
    assert_eq!(values_of(&store, "t", 2), vec!["5", "4"]);
    assert_eq!(values_of(&store, "t", 0), Vec::<String>::new());
    assert_eq!(
        store.get_last_value("t"),
        Some(("5".to_string(), 104))
    );
}

#[test]
fn stamps_never_run_backwards() {
    let mut store = DatabaseService::new();
    store.add_or_update_topic("t", None, 5, 10).unwrap();
    store.insert_value("t", "x", 50);
    store.insert_value("t", "y", 20);
    let got = store.get_last_values("t", Some(5));
    assert_eq!(got, vec![("y".to_string(), 50), ("x".to_string(), 50)]);
}

#[test]
fn topics_do_not_share_history() {
    let mut store = DatabaseService::new();
    store.add_or_update_topic("a", None, 1, 10).unwrap();
    store.add_or_update_topic("b", None, 2, 10).unwrap();
    store.insert_value("a", "1", 1);
    store.insert_value("b", "2", 2);
    store.insert_value("a", "3", 3);
    assert_eq!(values_of(&store, "a", 10), vec!["3"]);
    assert_eq!(values_of(&store, "b", 10), vec!["2"]);
}

#[test]
fn row_count_is_min_of_cap_and_inserts() {
    for cap in 1..5usize {
        for inserts in 0..8usize {
            let mut store = DatabaseService::new();
            store.add_or_update_topic("t", None, cap, 10).unwrap();
            for i in 0..inserts {
                store.insert_value("t", &i.to_string(), i as u64);
            }
            let got = values_of(&store, "t", 100);
            assert_eq!(got.len(), cap.min(inserts));
            let expected: Vec<String> = (0..inserts).rev().take(cap).map(|i| i.to_string()).collect();
            assert_eq!(got, expected);
        }
    }
}

#[test]
fn history_query_defaults_to_ten() {
    let mut store = DatabaseService::new();
    store.add_or_update_topic("t", None, 20, 10).unwrap();
    for i in 0..12u64 {
        store.insert_value("t", &i.to_string(), i);
    }
    let got = store.get_last_values("t", None);
    assert_eq!(got.len(), 10);
    assert_eq!(got[0].0, "11");
    assert_eq!(got[9].0, "2");
}
