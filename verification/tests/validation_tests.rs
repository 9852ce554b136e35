use dtqueue::{json_error, sanitize_queue_name};
use dtqueue::StorageError;

#[test]
fn test_valid_queue_names() {
    // Test valid queue names
    assert_eq!(
        sanitize_queue_name("valid"),
        Some("queue_valid".to_string())
    );
    assert_eq!(
        sanitize_queue_name("valid_queue"),
        Some("queue_valid_queue".to_string())
    );
    assert_eq!(
        sanitize_queue_name("valid123"),
        Some("queue_valid123".to_string())
    );
    assert_eq!(
        sanitize_queue_name("123valid"),
        Some("queue_123valid".to_string())
    );
    assert_eq!(
        sanitize_queue_name("_valid"),
        Some("queue__valid".to_string())
    );
}

#[test]
fn test_invalid_queue_names() {
    // Test invalid queue names
    assert_eq!(sanitize_queue_name(""), None);
    assert_eq!(sanitize_queue_name("invalid-queue"), None); // Hyphen should be rejected
    assert_eq!(sanitize_queue_name("invalid!queue"), None);
    assert_eq!(sanitize_queue_name("invalid queue"), None);
    assert_eq!(sanitize_queue_name("$invalid"), None);
}

#[test]
fn test_json_error_response() {
    let response = json_error(400, "TestError", "Test error message");
    assert_eq!(response.status, 400);
    assert_eq!(
        response.body.as_deref(),
        Some("{\"code\":\"TestError\",\"message\":\"Test error message\"}")
    );

    // Test more status codes
    let response = json_error(404, "NotFound", "Resource not found");
    assert_eq!(response.status, 404);
    assert_eq!(
        response.body.as_deref(),
        Some("{\"code\":\"NotFound\",\"message\":\"Resource not found\"}")
    );
}

#[test]
fn test_json_error_escapes_message() {
    let response = json_error(500, "InternalError", "a \"quoted\" path\\here\nnext");
    assert_eq!(
        response.body.as_deref(),
        Some("{\"code\":\"InternalError\",\"message\":\"a \\\"quoted\\\" path\\\\here\\u000anext\"}")
    );
}

#[test]
fn test_storage_error_messages() {
    assert_eq!(
        StorageError::QueueNotFound("ghost".to_string()).message(),
        "Queue not found: ghost"
    );
    assert_eq!(StorageError::LockError.message(), "Lock error");
    assert_eq!(
        StorageError::ValidationError("bad item".to_string()).message(),
        "Validation error: bad item"
    );
    assert_eq!(
        StorageError::PoolError("timed out".to_string()).message(),
        "Pool error: timed out"
    );
}
