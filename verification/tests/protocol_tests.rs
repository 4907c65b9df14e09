//! The JSON-RPC wire format and the correlation engine.

use mcpeek::json::JsonValue;
use mcpeek::mcp::{
    classify_line, interpret_response, Correlator, InboundMessage, JsonRpcError, JsonRpcRequest,
    JsonRpcResponse, McpError,
};

fn obj(fields: Vec<(&str, JsonValue)>) -> JsonValue {
    JsonValue::Object(fields.into_iter().map(|(k, v)| (k.to_string(), v)).collect())
}

fn text(s: &str) -> JsonValue {
    JsonValue::Text(s.to_string())
}

#[test]
fn test_request_id_increments() {
    let mut correlator = Correlator::new();

    let id1 = correlator.register();
    let id2 = correlator.register();
    let id3 = correlator.register();

    assert_eq!(id1, 1);
    assert_eq!(id2, 2);
    assert_eq!(id3, 3);
}

#[test]
fn client_test_jsonrpc_request_serialization() {
    let request = JsonRpcRequest::new(1, "initialize", Some(obj(vec![("test", text("value"))])));
    let json_str = request.to_line();

    assert!(json_str.contains("\"jsonrpc\":\"2.0\""));
    assert!(json_str.contains("\"id\":1"));
    assert!(json_str.contains("\"method\":\"initialize\""));
    assert!(json_str.contains("\"params\""));
}

#[test]
fn test_notification_serialization() {
    let notification = JsonRpcRequest::notification("notifications/initialized", None);
    let json_str = notification.to_line();

    assert!(json_str.contains("\"jsonrpc\":\"2.0\""));
    assert!(json_str.contains("\"method\":\"notifications/initialized\""));
    assert!(!json_str.contains("\"id\""));
}

#[test]
fn test_jsonrpc_request_new() {
    let request = JsonRpcRequest::new(1, "test_method", Some(obj(vec![("key", text("value"))])));

    assert_eq!(request.jsonrpc, "2.0");
    assert_eq!(request.id, Some(1));
    assert_eq!(request.method, "test_method");
    assert!(request.params.is_some());
}

#[test]
fn test_jsonrpc_request_notification() {
    let notification = JsonRpcRequest::notification("test_notification", None);

    assert_eq!(notification.jsonrpc, "2.0");
    assert!(notification.id.is_none());
    assert_eq!(notification.method, "test_notification");
    assert!(notification.params.is_none());
}

#[test]
fn protocol_test_jsonrpc_request_serialization() {
    let request = JsonRpcRequest::new(42, "initialize", Some(obj(vec![("version", text("1.0"))])));
    let json_str = request.to_line();
    let parsed = mcpeek::json::parse_json(&json_str).unwrap();

    match parsed.get(&"jsonrpc".to_string()) {
        Some(JsonValue::Text(s)) => assert_eq!(s, "2.0"),
        _ => panic!("jsonrpc field missing"),
    }
    match parsed.get(&"id".to_string()) {
        Some(v) => assert_eq!(v.as_i64(), Some(42)),
        None => panic!("id field missing"),
    }
    match parsed.get(&"method".to_string()) {
        Some(JsonValue::Text(s)) => assert_eq!(s, "initialize"),
        _ => panic!("method field missing"),
    }
}

#[test]
fn test_jsonrpc_response_with_result() {
    let line = "{\"jsonrpc\":\"2.0\",\"id\":1,\"result\":{\"status\":\"ok\"}}";
    let parsed = match classify_line(line) {
        InboundMessage::Response { id, response } => {
            assert_eq!(id, 1);
            response
        }
        _ => panic!("expected a response"),
    };

    assert!(parsed.result.is_some());
    assert!(parsed.error.is_none());
}

#[test]
fn test_jsonrpc_response_with_error() {
    let line = "{\"jsonrpc\":\"2.0\",\"id\":1,\"error\":{\"code\":-32600,\"message\":\"Invalid Request\"}}";
    let parsed = match classify_line(line) {
        InboundMessage::Response { id, response } => {
            assert_eq!(id, 1);
            response
        }
        _ => panic!("expected a response"),
    };

    assert!(parsed.result.is_none());
    assert!(parsed.error.is_some());
    assert_eq!(parsed.error.unwrap().code, -32600);
}

#[test]
fn test_response_message_enum() {
    let line = "{\"jsonrpc\":\"2.0\",\"id\":1,\"result\":{\"success\":true}}";
    match classify_line(line) {
        InboundMessage::Response { id, response } => {
            assert_eq!(id, 1);
            assert!(response.result.is_some());
        }
        _ => panic!("Expected Response variant"),
    }
}

#[test]
fn test_notification_message() {
    let line = "{\"jsonrpc\":\"2.0\",\"method\":\"test\"}";
    match classify_line(line) {
        InboundMessage::Other { document } => {
            match document.get(&"method".to_string()) {
                Some(JsonValue::Text(m)) => assert_eq!(m, "test"),
                _ => panic!("method missing"),
            }
            assert!(document.get(&"id".to_string()).is_none());
        }
        _ => panic!("Expected Notification variant"),
    }
}

#[test]
fn test_unparsable_line_is_noise() {
    match classify_line("this is not json") {
        InboundMessage::Unparsable => {}
        _ => panic!("expected noise"),
    }
    match classify_line("{\"unrelated\":true}") {
        InboundMessage::Unparsable => {}
        _ => panic!("expected noise"),
    }
}

#[test]
fn test_pending_requests_map() {
    let mut correlator = Correlator::new();
    let id = correlator.register();

    let response = JsonRpcResponse {
        jsonrpc: "2.0".to_string(),
        id: JsonValue::Number(id.to_string()),
        result: Some(text("done")),
        error: None,
    };
    assert!(correlator.deliver(id, response));
    let taken = correlator.take(id).expect("response should be waiting");
    match taken.result {
        Some(JsonValue::Text(s)) => assert_eq!(s, "done"),
        _ => panic!("result lost"),
    }
}

#[test]
fn test_response_matches_own_call_only() {
    // Two calls in flight; replies arrive out of order, and each call
    // still collects the reply carrying its own identifier.
    let mut correlator = Correlator::new();
    let id1 = correlator.register();
    let id2 = correlator.register();

    let r2 = JsonRpcResponse {
        jsonrpc: "2.0".to_string(),
        id: JsonValue::Number(id2.to_string()),
        result: Some(text("second")),
        error: None,
    };
    let r1 = JsonRpcResponse {
        jsonrpc: "2.0".to_string(),
        id: JsonValue::Number(id1.to_string()),
        result: Some(text("first")),
        error: None,
    };
    assert!(correlator.deliver(id2, r2));
    assert!(correlator.deliver(id1, r1));

    match correlator.take(id1).unwrap().result {
        Some(JsonValue::Text(s)) => assert_eq!(s, "first"),
        _ => panic!("wrong delivery"),
    }
    match correlator.take(id2).unwrap().result {
        Some(JsonValue::Text(s)) => assert_eq!(s, "second"),
        _ => panic!("wrong delivery"),
    }
}

#[test]
fn test_late_response_after_timeout_discarded() {
    let mut correlator = Correlator::new();
    let id1 = correlator.register();
    let id2 = correlator.register();

    correlator.expire(id1);

    let tardy = JsonRpcResponse {
        jsonrpc: "2.0".to_string(),
        id: JsonValue::Number(id1.to_string()),
        result: Some(text("too late")),
        error: None,
    };
    assert!(!correlator.deliver(id1, tardy));
    assert!(correlator.take(id1).is_none());

    // The other pending call is untouched.
    let ontime = JsonRpcResponse {
        jsonrpc: "2.0".to_string(),
        id: JsonValue::Number(id2.to_string()),
        result: Some(text("fine")),
        error: None,
    };
    assert!(correlator.deliver(id2, ontime));
    assert!(correlator.take(id2).is_some());
}

#[test]
fn test_duplicate_response_discarded() {
    let mut correlator = Correlator::new();
    let id = correlator.register();

    let first = JsonRpcResponse {
        jsonrpc: "2.0".to_string(),
        id: JsonValue::Number(id.to_string()),
        result: Some(text("first")),
        error: None,
    };
    let second = JsonRpcResponse {
        jsonrpc: "2.0".to_string(),
        id: JsonValue::Number(id.to_string()),
        result: Some(text("second")),
        error: None,
    };
    assert!(correlator.deliver(id, first));
    assert!(!correlator.deliver(id, second));
    match correlator.take(id).unwrap().result {
        Some(JsonValue::Text(s)) => assert_eq!(s, "first"),
        _ => panic!("wrong delivery"),
    }
}

#[test]
fn test_jsonrpc_error_structure() {
    let error = JsonRpcError {
        code: -32600,
        message: "Invalid Request".to_string(),
        data: Some(obj(vec![("details", text("Additional info"))])),
    };

    assert_eq!(error.code, -32600);
    assert_eq!(error.message, "Invalid Request");
    assert!(error.data.is_some());
}

#[test]
fn test_interpret_response_outcomes() {
    let ok = JsonRpcResponse {
        jsonrpc: "2.0".to_string(),
        id: JsonValue::Number("1".to_string()),
        result: Some(text("value")),
        error: None,
    };
    assert!(interpret_response(ok).is_ok());

    let err = JsonRpcResponse {
        jsonrpc: "2.0".to_string(),
        id: JsonValue::Number("1".to_string()),
        result: None,
        error: Some(JsonRpcError { code: 5, message: "boom".to_string(), data: None }),
    };
    match interpret_response(err) {
        Err(McpError::Rpc { code, message }) => {
            assert_eq!(code, 5);
            assert_eq!(message, "boom");
        }
        _ => panic!("expected the peer's error"),
    }

    let empty = JsonRpcResponse {
        jsonrpc: "2.0".to_string(),
        id: JsonValue::Number("1".to_string()),
        result: None,
        error: None,
    };
    match interpret_response(empty) {
        Err(McpError::MissingResult) => {}
        _ => panic!("expected a missing-result error"),
    }
}
