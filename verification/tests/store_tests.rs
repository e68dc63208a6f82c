use agent_hub::store::LogStore;
use agent_hub::types::{LogFilter, LogQueryParams, OrderBy, StoreError, StructuredLog, TimeRange};

fn nanos(ts: &str) -> i64 {
    chrono::DateTime::parse_from_str(ts, "%Y-%m-%dT%H:%M:%S.%f%z")
        .unwrap()
        .timestamp_nanos_opt()
        .unwrap()
}

fn log(level: &str, target: &str, message: &str, timestamp: &str) -> StructuredLog {
    StructuredLog {
        level: level.to_string(),
        target: target.to_string(),
        message: message.to_string(),
        timestamp: timestamp.to_string(),
    }
}

fn no_params() -> LogQueryParams {
    LogQueryParams {
        filter: None,
        search: None,
        time: None,
        order_by: None,
        page: None,
        item_per_page: None,
    }
}

#[test]
fn round_trip_preserves_fields() {
    let mut store = LogStore::new();
    let ts = "2018-12-03T15:31:45.123456789+09:00";
    let node = "node-a".to_string();
    let batch = vec![log("INFO", "net", "peer connected", ts)];
    assert!(store.insert(&node, batch).is_ok());

    let rows = store.search(no_params()).unwrap();
    assert_eq!(rows.len(), 1);
    assert_eq!(rows[0].node_name, "node-a");
    assert_eq!(rows[0].level, "INFO");
    assert_eq!(rows[0].target, "net");
    assert_eq!(rows[0].message, "peer connected");
    assert_eq!(rows[0].timestamp, nanos(ts));
}

#[test]
fn ids_are_assigned_in_insert_order() {
    let mut store = LogStore::new();
    let node = "n".to_string();
    let batch = vec![
        log("INFO", "a", "first", "2020-01-01T00:00:02.000000000+00:00"),
        log("INFO", "a", "second", "2020-01-01T00:00:01.000000000+00:00"),
    ];
    store.insert(&node, batch).unwrap();
    let rows = store.search(no_params()).unwrap();
    // ordered by timestamp ascending: the later-inserted record comes first
    assert_eq!(rows.len(), 2);
    assert_eq!(rows[0].message, "second");
    assert_eq!(rows[0].id, 1);
    assert_eq!(rows[1].message, "first");
    assert_eq!(rows[1].id, 0);
}

#[test]
fn bad_timestamp_fails_batch_but_keeps_prefix() {
    let mut store = LogStore::new();
    let node = "n".to_string();
    let batch = vec![
        log("INFO", "a", "good", "2020-01-01T00:00:01.000000000+00:00"),
        log("INFO", "a", "bad", "not a timestamp"),
        log("INFO", "a", "never stored", "2020-01-01T00:00:03.000000000+00:00"),
    ];
    let r = store.insert(&node, batch);
    assert_eq!(r, Err(StoreError::InvalidTimestamp));
    let rows = store.search(no_params()).unwrap();
    assert_eq!(rows.len(), 1);
    assert_eq!(rows[0].message, "good");
}

#[test]
fn pagination_second_page_is_rows_eleven_to_twenty() {
    let mut store = LogStore::new();
    let node = "n".to_string();
    let mut batch = Vec::new();
    for i in 0..25 {
        let ts = format!("2020-01-01T00:00:{:02}.000000000+00:00", i);
        batch.push(log("INFO", "t", &format!("m{}", i), &ts));
    }
    store.insert(&node, batch).unwrap();

    let mut params = no_params();
    params.page = Some(2);
    params.item_per_page = Some(10);
    let rows = store.search(params).unwrap();
    assert_eq!(rows.len(), 10);
    for (k, row) in rows.iter().enumerate() {
        assert_eq!(row.message, format!("m{}", k + 10));
    }
}

#[test]
fn default_page_is_first_hundred_ascending() {
    let mut store = LogStore::new();
    let node = "n".to_string();
    let mut batch = Vec::new();
    for i in 0..120 {
        let ts = format!("2020-01-01T00:{:02}:{:02}.000000000+00:00", i / 60, i % 60);
        batch.push(log("INFO", "t", &format!("m{}", i), &ts));
    }
    store.insert(&node, batch).unwrap();
    let rows = store.search(no_params()).unwrap();
    assert_eq!(rows.len(), 100);
    for (k, row) in rows.iter().enumerate() {
        assert_eq!(row.message, format!("m{}", k));
        if k > 0 {
            assert!(rows[k - 1].timestamp <= row.timestamp);
        }
    }
}

#[test]
fn page_zero_is_rejected() {
    let store = LogStore::new();
    let mut params = no_params();
    params.page = Some(0);
    assert!(store.search(params).is_err());
}

#[test]
fn descending_order_reverses_rows() {
    let mut store = LogStore::new();
    let node = "n".to_string();
    let batch = vec![
        log("INFO", "t", "early", "2020-01-01T00:00:01.000000000+00:00"),
        log("INFO", "t", "late", "2020-01-01T00:00:02.000000000+00:00"),
    ];
    store.insert(&node, batch).unwrap();
    let mut params = no_params();
    params.order_by = Some(OrderBy::DESC);
    let rows = store.search(params).unwrap();
    assert_eq!(rows[0].message, "late");
    assert_eq!(rows[1].message, "early");
}

#[test]
fn level_filter_is_case_insensitive() {
    let mut store = LogStore::new();
    let node = "n".to_string();
    let batch = vec![
        log("ERROR", "t", "boom", "2020-01-01T00:00:01.000000000+00:00"),
        log("INFO", "t", "fine", "2020-01-01T00:00:02.000000000+00:00"),
    ];
    store.insert(&node, batch).unwrap();
    let mut params = no_params();
    params.filter = Some(LogFilter {
        node_names: vec![],
        levels: vec!["error".to_string()],
        targets: vec![],
    });
    let rows = store.search(params).unwrap();
    assert_eq!(rows.len(), 1);
    assert_eq!(rows[0].message, "boom");
}

#[test]
fn message_search_is_case_insensitive_substring() {
    let mut store = LogStore::new();
    let node = "n".to_string();
    let batch = vec![
        log("INFO", "t", "Peer CONNECTED now", "2020-01-01T00:00:01.000000000+00:00"),
        log("INFO", "t", "other", "2020-01-01T00:00:02.000000000+00:00"),
    ];
    store.insert(&node, batch).unwrap();
    let mut params = no_params();
    params.search = Some("connected".to_string());
    let rows = store.search(params).unwrap();
    assert_eq!(rows.len(), 1);
    assert_eq!(rows[0].message, "Peer CONNECTED now");
}

#[test]
fn time_window_bounds_are_strict() {
    let mut store = LogStore::new();
    let node = "n".to_string();
    let t1 = "2020-01-01T00:00:01.000000000+00:00";
    let t2 = "2020-01-01T00:00:02.000000000+00:00";
    let t3 = "2020-01-01T00:00:03.000000000+00:00";
    let batch = vec![log("INFO", "t", "a", t1), log("INFO", "t", "b", t2), log("INFO", "t", "c", t3)];
    store.insert(&node, batch).unwrap();
    let mut params = no_params();
    params.time = Some(TimeRange { from_time: Some(nanos(t1)), to_time: Some(nanos(t3)) });
    let rows = store.search(params).unwrap();
    assert_eq!(rows.len(), 1);
    assert_eq!(rows[0].message, "b");
}

#[test]
fn node_name_filter_restricts() {
    let mut store = LogStore::new();
    let a = "node-a".to_string();
    let b = "node-b".to_string();
    store.insert(&a, vec![log("INFO", "t", "from a", "2020-01-01T00:00:01.000000000+00:00")]).unwrap();
    store.insert(&b, vec![log("INFO", "t", "from b", "2020-01-01T00:00:02.000000000+00:00")]).unwrap();
    let mut params = no_params();
    params.filter = Some(LogFilter {
        node_names: vec!["node-b".to_string()],
        levels: vec![],
        targets: vec![],
    });
    let rows = store.search(params).unwrap();
    assert_eq!(rows.len(), 1);
    assert_eq!(rows[0].message, "from b");
}

#[test]
fn empty_filter_lists_restrict_nothing() {
    let mut store = LogStore::new();
    let node = "n".to_string();
    store.insert(&node, vec![log("INFO", "t", "kept", "2020-01-01T00:00:01.000000000+00:00")]).unwrap();
    let mut params = no_params();
    params.filter = Some(LogFilter { node_names: vec![], levels: vec![], targets: vec![] });
    let rows = store.search(params).unwrap();
    assert_eq!(rows.len(), 1);
}

#[test]
fn get_targets_is_distinct_and_ordered() {
    let mut store = LogStore::new();
    let node = "n".to_string();
    let batch = vec![
        log("INFO", "net", "a", "2020-01-01T00:00:01.000000000+00:00"),
        log("INFO", "miner", "b", "2020-01-01T00:00:02.000000000+00:00"),
        log("INFO", "net", "c", "2020-01-01T00:00:03.000000000+00:00"),
    ];
    store.insert(&node, batch).unwrap();
    let targets = store.get_targets();
    assert_eq!(targets, vec!["miner".to_string(), "net".to_string()]);
}

#[test]
fn get_targets_is_idempotent_without_writes() {
    let mut store = LogStore::new();
    let node = "n".to_string();
    let batch = vec![
        log("INFO", "sync", "a", "2020-01-01T00:00:01.000000000+00:00"),
        log("INFO", "chain", "b", "2020-01-01T00:00:02.000000000+00:00"),
    ];
    store.insert(&node, batch).unwrap();
    let first = store.get_targets();
    let second = store.get_targets();
    assert_eq!(first, second);
}

#[test]
fn timestamps_order_records_not_arrival() {
    // records whose timestamps arrive out of order are returned in time
    // order, so the parsed instant — not the text's arrival — decides
    let mut store = LogStore::new();
    let node = "n".to_string();
    let late = "2021-06-01T10:00:00.500000000+00:00";
    let early = "2021-06-01T09:00:00.500000000+02:00";
    store.insert(&node, vec![log("INFO", "t", "late", late)]).unwrap();
    store.insert(&node, vec![log("INFO", "t", "early", early)]).unwrap();
    let mut params = no_params();
    params.time = Some(TimeRange { from_time: Some(nanos(early)), to_time: None });
    let rows = store.search(params).unwrap();
    assert_eq!(rows.len(), 1);
    assert_eq!(rows[0].message, "late");
}
