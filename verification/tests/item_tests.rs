use dtqueue::QueueItem;

#[test]
fn test_queue_item_serialization() {
    let now = chrono::Utc::now().timestamp_millis();
    let item = QueueItem {
        datetime: now,
        datetime_secondary: None,
        message: "test message".to_string(),
    };

    let json = item.to_json_string();
    let deserialized = QueueItem::from_json_string(&json).unwrap();

    assert_eq!(item.datetime, deserialized.datetime);
    assert_eq!(item.datetime_secondary, deserialized.datetime_secondary);
    assert_eq!(item.message, deserialized.message);
}

#[test]
fn test_queue_item_with_secondary_datetime() {
    let now = chrono::Utc::now().timestamp_millis();
    let secondary = now + 60 * 60 * 1000;
    let item = QueueItem {
        datetime: now,
        datetime_secondary: Some(secondary),
        message: "test message".to_string(),
    };

    let json = item.to_json_string();
    let deserialized = QueueItem::from_json_string(&json).unwrap();

    assert_eq!(item.datetime, deserialized.datetime);
    assert_eq!(item.datetime_secondary, deserialized.datetime_secondary);
    assert_eq!(item.message, deserialized.message);
}

#[test]
fn test_empty_message_skips_serializing() {
    let now = chrono::Utc::now().timestamp_millis();
    let item = QueueItem {
        datetime: now,
        datetime_secondary: None,
        message: "".to_string(),
    };

    let json = item.to_json_string();
    assert!(!json.contains("message"));
}

#[test]
fn test_invalid_json_deserialization() {
    let result = QueueItem::from_json_string("{invalid_json}");
    assert!(result.is_none());
}

#[test]
fn test_exact_serialized_text() {
    let item = QueueItem {
        datetime: -42,
        datetime_secondary: Some(7),
        message: "hi".to_string(),
    };
    assert_eq!(
        item.to_json_string(),
        "{\"datetime\":-42,\"datetime_secondary\":7,\"message\":\"hi\"}"
    );

    let bare = QueueItem {
        datetime: 0,
        datetime_secondary: None,
        message: String::new(),
    };
    assert_eq!(bare.to_json_string(), "{\"datetime\":0}");
}

#[test]
fn test_message_escaping_round_trip() {
    let item = QueueItem {
        datetime: 1,
        datetime_secondary: None,
        message: "say \"hello\"\\\n\tworld \u{1}".to_string(),
    };
    let json = item.to_json_string();
    let back = QueueItem::from_json_string(&json).unwrap();
    assert_eq!(back.message, item.message);
    assert_eq!(
        json,
        "{\"datetime\":1,\"message\":\"say \\\"hello\\\"\\\\\\u000a\\u0009world \\u0001\"}"
    );
}

#[test]
fn test_parse_accepts_whitespace_and_any_field_order() {
    let item = QueueItem::from_json_string(
        " { \"message\" : \"m\" , \"datetime_secondary\" : -5 , \"datetime\" : 9 } ",
    )
    .unwrap();
    assert_eq!(item.datetime, 9);
    assert_eq!(item.datetime_secondary, Some(-5));
    assert_eq!(item.message, "m");
}

#[test]
fn test_parse_null_secondary_and_escapes() {
    let item =
        QueueItem::from_json_string("{\"datetime\":3,\"datetime_secondary\":null,\"message\":\"\\u0041\\t\"}")
            .unwrap();
    assert_eq!(item.datetime, 3);
    assert_eq!(item.datetime_secondary, None);
    assert_eq!(item.message, "A\t");
}

#[test]
fn test_parse_extreme_timestamps() {
    let item = QueueItem::from_json_string(
        "{\"datetime\":-9223372036854775808,\"datetime_secondary\":9223372036854775807}",
    )
    .unwrap();
    assert_eq!(item.datetime, i64::MIN);
    assert_eq!(item.datetime_secondary, Some(i64::MAX));
    assert_eq!(item.message, "");
}

#[test]
fn test_parse_rejections() {
    // Required field missing.
    assert!(QueueItem::from_json_string("{}").is_none());
    assert!(QueueItem::from_json_string("{\"message\":\"m\"}").is_none());
    // Unknown key.
    assert!(QueueItem::from_json_string("{\"datetime\":1,\"other\":2}").is_none());
    // Repeated key.
    assert!(QueueItem::from_json_string("{\"datetime\":1,\"datetime\":2}").is_none());
    // Out-of-range and malformed numerals.
    assert!(QueueItem::from_json_string("{\"datetime\":9223372036854775808}").is_none());
    assert!(QueueItem::from_json_string("{\"datetime\":-9223372036854775809}").is_none());
    assert!(QueueItem::from_json_string("{\"datetime\":007}").is_none());
    assert!(QueueItem::from_json_string("{\"datetime\":--1}").is_none());
    // Trailing text and unterminated strings.
    assert!(QueueItem::from_json_string("{\"datetime\":1}x").is_none());
    assert!(QueueItem::from_json_string("{\"datetime\":1,\"message\":\"open}").is_none());
    // Bad escapes and surrogate escape values.
    assert!(QueueItem::from_json_string("{\"datetime\":1,\"message\":\"\\x\"}").is_none());
    assert!(QueueItem::from_json_string("{\"datetime\":1,\"message\":\"\\ud800\"}").is_none());
    // Not an object.
    assert!(QueueItem::from_json_string("").is_none());
    assert!(QueueItem::from_json_string("42").is_none());
}
