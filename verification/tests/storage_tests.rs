use dtqueue::{AppConfig, InMemoryStorage, QueueItem, SqliteStorage, Storage, StorageError};
use std::time::Instant;

fn test_config(queue: &str) -> AppConfig {
    AppConfig {
        bind_address: "127.0.0.1".to_string(),
        port: 8080,
        queues: vec![queue.to_string()],
        log_file: "test.log".to_string(),
        log_level: "info".to_string(),
        database_path: ":memory:".to_string(),
        max_workers: Some(2),
    }
}

fn item(datetime: i64, secondary: Option<i64>, message: &str) -> QueueItem {
    QueueItem {
        datetime,
        datetime_secondary: secondary,
        message: message.to_string(),
    }
}

#[test]
fn test_put_get_delete_operations() {
    let config = test_config("put_get_delete_operations");
    let mut server = SqliteStorage::new(&config).unwrap();
    let q = "put_get_delete_operations";

    server.put_item(q, item(0, None, "test message")).unwrap();

    let retrieved = server.get_item(q).unwrap().unwrap();
    assert_eq!(retrieved.message, "test message");

    let deleted = server.delete_item(q).unwrap().unwrap();
    assert_eq!(deleted.message, "test message");

    // Queue should be empty now
    assert!(server.get_item(q).unwrap().is_none());
}

#[test]
fn test_priority_ordering() {
    let config = test_config("priority_ordering");
    let mut server = SqliteStorage::new(&config).unwrap();
    let q = "priority_ordering";

    // Add items in reverse chronological order
    server.put_item(q, item(30, None, "message 3")).unwrap();
    server.put_item(q, item(20, None, "message 2")).unwrap();
    server.put_item(q, item(10, None, "message 1")).unwrap();

    // Items should be retrieved in chronological order
    let retrieved1 = server.get_item(q).unwrap().unwrap();
    assert_eq!(
        retrieved1.message, "message 1",
        "First item should be message 1"
    );

    server.delete_item(q).unwrap(); // Delete the first item

    let retrieved2 = server.get_item(q).unwrap().unwrap();
    assert_eq!(
        retrieved2.message, "message 2",
        "Second item should be message 2"
    );

    server.delete_item(q).unwrap(); // Delete the second item

    let retrieved3 = server.get_item(q).unwrap().unwrap();
    assert_eq!(
        retrieved3.message, "message 3",
        "Third item should be message 3"
    );
}

#[test]
fn test_idempotent_puts() {
    let config = test_config("idempotent_puts");
    let mut server = SqliteStorage::new(&config).unwrap();
    let q = "idempotent_puts";

    let now = chrono::Utc::now().timestamp_millis();

    // First PUT - should create the item
    server.put_item(q, item(now, None, "original message")).unwrap();

    // Second PUT - should update the item (same datetime key)
    server.put_item(q, item(now, None, "updated message")).unwrap();

    // Check that the item was updated
    let retrieved = server.get_item(q).unwrap().unwrap();
    assert_eq!(
        retrieved.message, "updated message",
        "Message should be updated"
    );
    // And that nothing else is behind it.
    server.delete_item(q).unwrap().unwrap();
    assert!(server.delete_item(q).unwrap().is_none());
}

#[test]
fn test_secondary_datetime_ordering() {
    let config = test_config("secondary_datetime_ordering");
    let mut server = SqliteStorage::new(&config).unwrap();
    let q = "secondary_datetime_ordering";

    let now = 10i64;

    // Items with the same primary datetime but different secondary datetimes,
    // added in reverse order.
    server
        .put_item(q, item(now, Some(now + 10_000), "secondary 1"))
        .unwrap();
    server
        .put_item(q, item(now, Some(now + 5_000), "secondary 2"))
        .unwrap();
    server.put_item(q, item(now, None, "secondary 3")).unwrap();

    let retrieved1 = server.get_item(q).unwrap().unwrap();
    assert_eq!(
        retrieved1.message, "secondary 3",
        "Item with no secondary datetime should be first"
    );
    server.delete_item(q).unwrap();

    let retrieved2 = server.get_item(q).unwrap().unwrap();
    assert_eq!(
        retrieved2.message, "secondary 2",
        "Item with earlier secondary datetime should be second"
    );
    server.delete_item(q).unwrap();

    let retrieved3 = server.get_item(q).unwrap().unwrap();
    assert_eq!(
        retrieved3.message, "secondary 1",
        "Item with later secondary datetime should be third"
    );
}

#[test]
fn test_invalid_queue_name() {
    let config = test_config("invalid_queue_name");
    let storage = SqliteStorage::new(&config).unwrap();

    let response = dtqueue::get_item(&storage, "/nonexistent_queue");
    assert_eq!(
        response.status, 403,
        "Invalid queue name should return 403 Forbidden"
    );
    let body = response.body.unwrap();
    assert!(
        body.contains("\"code\":\"InvalidQueueName\""),
        "Error code should be InvalidQueueName"
    );
}

#[test]
fn test_queue_throughput() {
    let config = test_config("queue_throughput");
    let mut server = SqliteStorage::new(&config).unwrap();
    let q = "queue_throughput";

    // Number of items to test with
    let item_count = 1000;

    // Measure PUT throughput
    let start = Instant::now();
    for i in 0..item_count {
        server
            .put_item(q, item(i as i64, None, &format!("message {}", i)))
            .unwrap();
    }
    let put_duration = start.elapsed();
    let put_throughput = item_count as f64 / put_duration.as_secs_f64();
    println!("PUT throughput: {:.2} items/second", put_throughput);

    // Measure GET throughput
    let start = Instant::now();
    for _ in 0..item_count {
        server.get_item(q).unwrap();
    }
    let get_duration = start.elapsed();
    let get_throughput = item_count as f64 / get_duration.as_secs_f64();
    println!("GET throughput: {:.2} items/second", get_throughput);

    // Measure DELETE throughput
    let start = Instant::now();
    for _ in 0..item_count {
        server.delete_item(q).unwrap();
    }
    let delete_duration = start.elapsed();
    let delete_throughput = item_count as f64 / delete_duration.as_secs_f64();
    println!("DELETE throughput: {:.2} items/second", delete_throughput);

    // Print summary
    println!("\nThroughput Summary:");
    println!("PUT: {:.2} items/second", put_throughput);
    println!("GET: {:.2} items/second", get_throughput);
    println!("DELETE: {:.2} items/second", delete_throughput);
}

#[test]
fn test_volatile_matches_durable_semantics() {
    // The same scenario against both backends gives the same answers.
    let config = test_config("shared");
    let mut mem = InMemoryStorage::new(&config);
    let mut db = SqliteStorage::new(&config).unwrap();

    let steps: Vec<QueueItem> = vec![
        item(5, None, "e"),
        item(3, Some(1), "c1"),
        item(3, None, "c"),
        item(3, Some(1), "c1-updated"),
        item(8, Some(-2), "h"),
    ];
    for it in steps {
        mem.put_item("shared", it.clone()).unwrap();
        db.put_item("shared", it).unwrap();
    }
    loop {
        let a = mem.delete_item("shared").unwrap();
        let b = db.delete_item("shared").unwrap();
        match (a, b) {
            (None, None) => break,
            (Some(x), Some(y)) => {
                assert_eq!(x.datetime, y.datetime);
                assert_eq!(x.datetime_secondary, y.datetime_secondary);
                assert_eq!(x.message, y.message);
            }
            _ => panic!("backends disagree on emptiness"),
        }
    }
}

#[test]
fn test_reserved_sentinel_secondary_rejected() {
    // The minimum value is reserved to stand for an absent secondary
    // timestamp in durable storage, so both backends alike reject an item
    // carrying it as a real secondary timestamp, and store nothing.
    let config = test_config("sentinel");
    let mut db = SqliteStorage::new(&config).unwrap();
    assert!(matches!(
        db.put_item("sentinel", item(1, Some(i64::MIN), "s")),
        Err(StorageError::ValidationError(_))
    ));
    assert!(db.get_item("sentinel").unwrap().is_none());

    let mut mem = InMemoryStorage::new(&config);
    assert!(matches!(
        mem.put_item("sentinel", item(1, Some(i64::MIN), "s")),
        Err(StorageError::ValidationError(_))
    ));
    assert!(mem.get_item("sentinel").unwrap().is_none());

    // A put just above the reserved value is fine on both.
    db.put_item("sentinel", item(1, Some(i64::MIN + 1), "s")).unwrap();
    mem.put_item("sentinel", item(1, Some(i64::MIN + 1), "s")).unwrap();
    assert_eq!(
        db.get_item("sentinel").unwrap().unwrap().datetime_secondary,
        Some(i64::MIN + 1)
    );
    assert_eq!(
        mem.get_item("sentinel").unwrap().unwrap().datetime_secondary,
        Some(i64::MIN + 1)
    );
}

#[test]
fn test_reserved_sentinel_put_is_bad_request() {
    // Through the request layer the rejected item is a client error.
    let config = test_config("sentinel");
    let mut mem = InMemoryStorage::new(&config);
    let response = dtqueue::put_item(
        &mut mem,
        "sentinel",
        "{\"datetime\":1,\"datetime_secondary\":-9223372036854775808}",
    );
    assert_eq!(response.status, 400);
    assert!(response.body.unwrap().contains("\"code\":\"BadRequest\""));
}

#[test]
fn test_queue_not_found_errors() {
    let config = test_config("known");
    let mut db = SqliteStorage::new(&config).unwrap();
    assert!(matches!(
        db.put_item("ghost", item(1, None, "x")),
        Err(StorageError::QueueNotFound(n)) if n == "ghost"
    ));
    assert!(matches!(
        db.get_item("ghost"),
        Err(StorageError::QueueNotFound(_))
    ));
    assert!(matches!(
        db.delete_item("ghost"),
        Err(StorageError::QueueNotFound(_))
    ));
    assert!(db.queue_exists("known"));
    assert!(!db.queue_exists("ghost"));

    let mut mem = InMemoryStorage::new(&config);
    assert!(matches!(
        mem.put_item("ghost", item(1, None, "x")),
        Err(StorageError::QueueNotFound(n)) if n == "ghost"
    ));
    assert!(mem.queue_exists("known"));
    assert!(!mem.queue_exists("ghost"));
}

#[test]
fn test_invalid_configured_name_rejected() {
    // A queue name that fails validation cannot be given a table.
    let config = test_config("bad-name");
    match SqliteStorage::new(&config) {
        Err(StorageError::QueueNotFound(n)) => assert_eq!(n, "bad-name"),
        _ => panic!("a hyphenated queue name must be rejected"),
    }
}

#[test]
fn test_database_error_on_unusable_path() {
    let mut config = test_config("known");
    config.database_path = "/nonexistent_dir_for_dtqueue/sub/db.sqlite".to_string();
    match SqliteStorage::new(&config) {
        Err(StorageError::Database(_)) => {}
        _ => panic!("an unusable database path must fail with a database error"),
    }
}
