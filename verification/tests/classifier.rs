//! Tests for the error classification table and the wire error body.

use secrets_cache::error::ClassifiedError;
use secrets_cache::error::HttpError;
use secrets_cache::error::RawFailure;
use secrets_cache::error::classify;
use secrets_cache::error::err_response;
use secrets_cache::error::int_err;
use secrets_cache::error::is_transient_error;
use secrets_cache::error::str_contains;
use secrets_cache::error::str_eq;

fn http(f: &RawFailure) -> (u16, String) {
    let HttpError(status, body) = classify(f).to_http();
    (status, body)
}

#[test]
fn dispatch_timeout_is_transient_504() {
    let f = RawFailure::Dispatch { timeout: true, io: false };
    let c = classify(&f);
    assert!(c.transient);
    assert_eq!(c.http_status, 504);
    assert_eq!(c.wire_code, "TimeoutError");
    assert_eq!(c.wire_message, "Timeout");
    let (status, body) = http(&f);
    assert_eq!(status, 504);
    assert_eq!(body, "{\"__type\":\"TimeoutError\", \"message\":\"Timeout\"}");
}

#[test]
fn explicit_timeout_is_transient_504() {
    let f = RawFailure::Timeout;
    let c = classify(&f);
    assert!(c.transient);
    assert_eq!(c.http_status, 504);
    assert_eq!(c.wire_code, "TimeoutError");
}

#[test]
fn dispatch_io_is_transient_502_read_error() {
    let f = RawFailure::Dispatch { timeout: false, io: true };
    let c = classify(&f);
    assert!(c.transient);
    assert_eq!(c.http_status, 502);
    let (status, body) = http(&f);
    assert_eq!(status, 502);
    assert_eq!(body, "{\"__type\":\"ConnectionError\", \"message\":\"Read Error\"}");
}

#[test]
fn dispatch_other_is_internal() {
    let f = RawFailure::Dispatch { timeout: false, io: false };
    let c = classify(&f);
    assert!(!c.transient);
    let (status, body) = http(&f);
    assert_eq!(status, 500);
    assert_eq!(body, "{\"__type\":\"InternalFailure\"}");
}

#[test]
fn response_error_is_transient_502() {
    let f = RawFailure::Response;
    let c = classify(&f);
    assert!(c.transient);
    let (status, body) = http(&f);
    assert_eq!(status, 502);
    assert_eq!(body, "{\"__type\":\"ConnectionError\", \"message\":\"Response Error\"}");
}

#[test]
fn not_found_service_error_is_permanent_404() {
    let f = RawFailure::Service {
        status: 400,
        code: Some("ResourceNotFoundException".to_string()),
        message: Some("Secrets Manager can't find the specified secret.".to_string()),
    };
    let c = classify(&f);
    assert!(!c.transient);
    assert_eq!(c.http_status, 404);
    let (status, body) = http(&f);
    assert_eq!(status, 404);
    assert_eq!(
        body,
        "{\"__type\":\"ResourceNotFoundException\", \"message\":\"Secrets Manager can't find the specified secret.\"}"
    );
}

#[test]
fn access_denied_service_error_is_permanent_400() {
    let f = RawFailure::Service {
        status: 400,
        code: Some("AccessDeniedException".to_string()),
        message: Some("Access to KMS is not allowed".to_string()),
    };
    let c = classify(&f);
    assert!(!c.transient);
    assert_eq!(c.http_status, 400);
    let (status, body) = http(&f);
    assert_eq!(status, 400);
    assert!(body.contains("\"__type\":\"AccessDeniedException\""));
    assert!(body.contains("\"message\":\"Access to KMS is not allowed\""));
}

#[test]
fn internal_code_service_error_is_500() {
    let f = RawFailure::Service {
        status: 400,
        code: Some("InternalServiceError".to_string()),
        message: None,
    };
    let c = classify(&f);
    assert_eq!(c.http_status, 500);
    assert!(!c.transient);
}

#[test]
fn service_error_without_code_is_internal_error_500() {
    let f = RawFailure::Service { status: 400, code: None, message: None };
    let c = classify(&f);
    assert_eq!(c.http_status, 500);
    assert_eq!(c.wire_code, "InternalError");
}

#[test]
fn five_xx_service_error_is_transient() {
    let f = RawFailure::Service {
        status: 503,
        code: Some("ThrottlingException".to_string()),
        message: Some("slow down".to_string()),
    };
    let c = classify(&f);
    assert!(c.transient);
    assert_eq!(c.http_status, 400);
    assert!(is_transient_error(&f));
}

#[test]
fn unclassified_failure_is_suppressed_internal() {
    let f = RawFailure::Other;
    let c = classify(&f);
    assert!(!c.transient);
    let (status, body) = http(&f);
    assert_eq!(status, 500);
    assert_eq!(body, "{\"__type\":\"InternalFailure\"}");
}

#[test]
fn serialization_failure_is_suppressed_internal() {
    let (status, body) = http(&RawFailure::Serialization);
    assert_eq!(status, 500);
    assert_eq!(body, "{\"__type\":\"InternalFailure\"}");
}

#[test]
fn parse_error() {
    let f = RawFailure::Input {
        message: "URLs more than 4 GB are not supported".to_string(),
    };
    let c = classify(&f);
    assert_eq!(400, c.http_status);
    assert_eq!("URLs more than 4 GB are not supported", c.wire_code);
    assert!(!c.transient);
}

#[test]
fn transient_table() {
    assert!(is_transient_error(&RawFailure::Timeout));
    assert!(is_transient_error(&RawFailure::Response));
    assert!(is_transient_error(&RawFailure::Dispatch { timeout: true, io: false }));
    assert!(is_transient_error(&RawFailure::Dispatch { timeout: false, io: true }));
    assert!(!is_transient_error(&RawFailure::Dispatch { timeout: false, io: false }));
    assert!(is_transient_error(&RawFailure::Service { status: 500, code: None, message: None }));
    assert!(!is_transient_error(&RawFailure::Service { status: 404, code: None, message: None }));
    assert!(!is_transient_error(&RawFailure::Other));
    assert!(!is_transient_error(&RawFailure::Serialization));
    assert!(!is_transient_error(&RawFailure::Input { message: String::new() }));
}

#[test]
fn err_response_shapes() {
    assert_eq!(err_response("InternalFailure", ""), "{\"__type\":\"InternalFailure\"}");
    assert_eq!(err_response("InternalFailure", "hidden detail"), "{\"__type\":\"InternalFailure\"}");
    assert_eq!(err_response("SomeException", ""), "{\"__type\":\"SomeException\"}");
    assert_eq!(
        err_response("SomeException", "a message"),
        "{\"__type\":\"SomeException\", \"message\":\"a message\"}"
    );
}

#[test]
fn int_err_is_exact() {
    let HttpError(status, body) = int_err();
    assert_eq!(status, 500);
    assert_eq!(body, "{\"__type\":\"InternalFailure\"}");
}

#[test]
fn classified_error_body_follows_rule() {
    let c = ClassifiedError {
        transient: false,
        http_status: 400,
        wire_code: "X".to_string(),
        wire_message: String::new(),
    };
    assert_eq!(c.body(), "{\"__type\":\"X\"}");
}

#[test]
fn string_helpers() {
    assert!(str_eq("abc", "abc"));
    assert!(!str_eq("abc", "abd"));
    assert!(!str_eq("abc", "abcd"));
    assert!(str_contains("InternalServiceError", "Internal"));
    assert!(str_contains("ResourceNotFoundException", "NotFound"));
    assert!(!str_contains("AccessDeniedException", "NotFound"));
    assert!(str_contains("abc", ""));
    assert!(!str_contains("ab", "abc"));
}
