use dtqueue::{AppConfig, InMemoryStorage, QueueItem, Storage};

fn config_with(queues: Vec<&str>) -> AppConfig {
    AppConfig {
        bind_address: "127.0.0.1".to_string(),
        port: 8080,
        queues: queues.into_iter().map(|q| q.to_string()).collect(),
        log_file: "test.log".to_string(),
        log_level: "info".to_string(),
        database_path: ":memory:".to_string(),
        max_workers: Some(2),
    }
}

fn item(datetime: i64, secondary: Option<i64>, message: &str) -> QueueItem {
    QueueItem {
        datetime,
        datetime_secondary: secondary,
        message: message.to_string(),
    }
}

#[test]
fn test_get_on_empty_queue_reports_empty() {
    // Queue "alpha" has no items: a get reports empty.
    let storage = InMemoryStorage::new(&config_with(vec!["alpha"]));
    assert!(storage.get_item("alpha").unwrap().is_none());
    let response = dtqueue::get_item(&storage, "alpha");
    assert_eq!(response.status, 204);
    assert!(response.body.is_none());
}

#[test]
fn test_get_returns_smaller_primary() {
    // put(t=100, sec=None, "x"); put(t=50, sec=None, "y"): get returns "y".
    let mut storage = InMemoryStorage::new(&config_with(vec!["alpha"]));
    storage.put_item("alpha", item(100, None, "x")).unwrap();
    storage.put_item("alpha", item(50, None, "y")).unwrap();
    let got = storage.get_item("alpha").unwrap().unwrap();
    assert_eq!(got.message, "y");
    assert_eq!(got.datetime, 50);
}

#[test]
fn test_absent_secondary_sorts_first() {
    // put(t=100, sec=None, "a"); put(t=100, sec=5, "b"): get returns "a".
    let mut storage = InMemoryStorage::new(&config_with(vec!["alpha"]));
    storage.put_item("alpha", item(100, None, "a")).unwrap();
    storage.put_item("alpha", item(100, Some(5), "b")).unwrap();
    let got = storage.get_item("alpha").unwrap().unwrap();
    assert_eq!(got.message, "a");
    assert_eq!(got.datetime_secondary, None);
}

#[test]
fn test_unregistered_queue_carries_error_code() {
    // A request against the unregistered name "ghost" carries the
    // machine-readable code InvalidQueueName.
    let mut storage = InMemoryStorage::new(&config_with(vec!["alpha"]));
    let get = dtqueue::get_item(&storage, "ghost");
    assert_eq!(get.status, 403);
    assert!(get.body.unwrap().contains("\"code\":\"InvalidQueueName\""));
    let put = dtqueue::put_item(&mut storage, "ghost", "{\"datetime\":1}");
    assert_eq!(put.status, 403);
    assert!(put.body.unwrap().contains("\"code\":\"InvalidQueueName\""));
    let del = dtqueue::delete_item(&mut storage, "ghost");
    assert_eq!(del.status, 403);
    assert!(del.body.unwrap().contains("\"code\":\"InvalidQueueName\""));
}

#[test]
fn test_two_puts_two_deletes_then_empty() {
    // Two puts into "alpha", then two deletes in ascending key order; a
    // third get or delete reports empty.
    let mut storage = InMemoryStorage::new(&config_with(vec!["alpha"]));
    storage.put_item("alpha", item(200, None, "later")).unwrap();
    storage.put_item("alpha", item(100, None, "sooner")).unwrap();

    let first = storage.delete_item("alpha").unwrap().unwrap();
    assert_eq!(first.datetime, 100);
    assert_eq!(first.message, "sooner");

    let second = storage.delete_item("alpha").unwrap().unwrap();
    assert_eq!(second.datetime, 200);
    assert_eq!(second.message, "later");

    assert!(storage.get_item("alpha").unwrap().is_none());
    assert!(storage.delete_item("alpha").unwrap().is_none());
}

#[test]
fn test_put_overwrites_payload() {
    // A put on an existing key overwrites the payload; an immediately
    // following get and delete observe the new payload only.
    let mut storage = InMemoryStorage::new(&config_with(vec!["alpha"]));
    storage.put_item("alpha", item(7, Some(3), "old")).unwrap();
    storage.put_item("alpha", item(7, Some(3), "new")).unwrap();
    assert_eq!(storage.get_item("alpha").unwrap().unwrap().message, "new");
    assert_eq!(storage.delete_item("alpha").unwrap().unwrap().message, "new");
    assert!(storage.delete_item("alpha").unwrap().is_none());
}

#[test]
fn test_delete_on_empty_idempotent() {
    // A delete on an empty queue returns empty, never errs, and stays
    // empty under repetition.
    let mut storage = InMemoryStorage::new(&config_with(vec!["alpha"]));
    for _ in 0..3 {
        assert!(storage.delete_item("alpha").unwrap().is_none());
    }
}

#[test]
fn test_deletes_yield_min_distinct_items() {
    // Depositing K uniquely tagged items then issuing N deletes yields
    // exactly min(N, K) results, all distinct, covering the K smallest
    // keys when N >= K.
    let k = 5usize;
    let n = 8usize;
    let mut storage = InMemoryStorage::new(&config_with(vec!["alpha"]));
    for i in (0..k).rev() {
        storage
            .put_item("alpha", item(i as i64, None, &format!("tag {}", i)))
            .unwrap();
    }
    let mut results: Vec<QueueItem> = Vec::new();
    for _ in 0..n {
        if let Some(it) = storage.delete_item("alpha").unwrap() {
            results.push(it);
        }
    }
    assert_eq!(results.len(), k.min(n));
    for (i, it) in results.iter().enumerate() {
        assert_eq!(it.datetime, i as i64);
        assert_eq!(it.message, format!("tag {}", i));
    }
    // And with N < K, exactly N of the smallest leave.
    let mut storage = InMemoryStorage::new(&config_with(vec!["alpha"]));
    for i in 0..k {
        storage
            .put_item("alpha", item(i as i64, None, &format!("tag {}", i)))
            .unwrap();
    }
    for i in 0..3usize {
        let it = storage.delete_item("alpha").unwrap().unwrap();
        assert_eq!(it.datetime, i as i64);
    }
    assert_eq!(storage.get_item("alpha").unwrap().unwrap().datetime, 3);
}

#[test]
fn test_queues_are_isolated() {
    // An item put into one queue never shows in another.
    let mut storage = InMemoryStorage::new(&config_with(vec!["alpha", "beta"]));
    storage.put_item("alpha", item(1, None, "a")).unwrap();
    assert!(storage.get_item("beta").unwrap().is_none());
    storage.put_item("beta", item(2, None, "b")).unwrap();
    assert_eq!(storage.delete_item("alpha").unwrap().unwrap().message, "a");
    assert_eq!(storage.delete_item("beta").unwrap().unwrap().message, "b");
}

#[test]
fn test_put_item_handler() {
    let config = config_with(vec!["queue"]);
    let mut storage = InMemoryStorage::new(&config);

    let now = chrono::Utc::now().timestamp_millis();
    let it = QueueItem {
        datetime: now,
        datetime_secondary: None,
        message: "test message".to_string(),
    };
    let json = it.to_json_string();

    let response = dtqueue::put_item(&mut storage, "queue", &json);
    assert_eq!(response.status, 200);
}

#[test]
fn test_put_invalid_queue() {
    let config = config_with(vec!["queue"]);
    let mut storage = InMemoryStorage::new(&config);

    let now = chrono::Utc::now().timestamp_millis();
    let it = QueueItem {
        datetime: now,
        datetime_secondary: None,
        message: "test message".to_string(),
    };
    let json = it.to_json_string();

    let response = dtqueue::put_item(&mut storage, "invalid_queue", &json);
    assert_eq!(response.status, 403);
}

#[test]
fn test_put_bad_body_rejected() {
    let config = config_with(vec!["queue"]);
    let mut storage = InMemoryStorage::new(&config);
    let response = dtqueue::put_item(&mut storage, "queue", "{not json}");
    assert_eq!(response.status, 400);
    assert!(response.body.unwrap().contains("\"code\":\"BadRequest\""));
    // The rejected body left no item behind.
    assert!(storage.get_item("queue").unwrap().is_none());
}

#[test]
fn test_handler_round_trip_body() {
    let config = config_with(vec!["queue"]);
    let mut storage = InMemoryStorage::new(&config);
    let put = dtqueue::put_item(
        &mut storage,
        "queue",
        "{\"datetime\":42,\"message\":\"hello\"}",
    );
    assert_eq!(put.status, 200);
    assert!(put.body.is_none());
    let get = dtqueue::get_item(&storage, "queue");
    assert_eq!(get.status, 200);
    assert_eq!(
        get.body.as_deref(),
        Some("{\"datetime\":42,\"message\":\"hello\"}")
    );
    let del = dtqueue::delete_item(&mut storage, "queue");
    assert_eq!(del.status, 200);
    assert_eq!(
        del.body.as_deref(),
        Some("{\"datetime\":42,\"message\":\"hello\"}")
    );
    let empty = dtqueue::delete_item(&mut storage, "queue");
    assert_eq!(empty.status, 204);
}
