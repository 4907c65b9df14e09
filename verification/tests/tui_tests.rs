//! The presentation-facing pieces: tab ring, renderings, form derivation.

use mcpeek::json::{parse_json, JsonValue};
use mcpeek::logging::{LogBuffer, LogEntry};
use mcpeek::mcp_messages::{
    call_result_from_json, get_prompt_result_from_json, read_result_from_json,
};
use mcpeek::tui::{
    format_prompt_content, format_prompt_result, format_resource_read_result, format_tool_result,
    parse_input_schema, Tab,
};

#[test]
fn test_tab_ring_without_debug() {
    assert_eq!(Tab::Tools.next(false), Tab::Prompts);
    assert_eq!(Tab::Prompts.next(false), Tab::Resources);
    assert_eq!(Tab::Resources.next(false), Tab::ServerInfo);
    assert_eq!(Tab::ServerInfo.next(false), Tab::ServerLogs);
    assert_eq!(Tab::ServerLogs.next(false), Tab::Tools);
    assert_eq!(Tab::Tools.previous(false), Tab::ServerLogs);
    assert_eq!(Tab::ServerLogs.previous(false), Tab::ServerInfo);
}

#[test]
fn test_tab_ring_with_debug() {
    assert_eq!(Tab::ServerLogs.next(true), Tab::DebugLogs);
    assert_eq!(Tab::DebugLogs.next(true), Tab::Tools);
    assert_eq!(Tab::Tools.previous(true), Tab::DebugLogs);
    assert_eq!(Tab::DebugLogs.previous(true), Tab::ServerLogs);
}

#[test]
fn test_tab_labels() {
    assert_eq!(Tab::Tools.as_str(), "Tools");
    assert_eq!(Tab::ServerInfo.as_str(), "Server Info");
    assert_eq!(Tab::DebugLogs.as_str(), "Debug Logs");
}

#[test]
fn test_format_tool_result_text() {
    let doc = parse_json(
        "{\"content\":[{\"type\":\"text\",\"text\":\"hello\"},{\"type\":\"text\",\"text\":\"world\"}],\"isError\":false}",
    )
    .unwrap();
    let result = call_result_from_json(&doc).unwrap();
    let rendered = format_tool_result("greet", &result);
    assert_eq!(
        rendered,
        "Tool Call Result: greet\n\nStatus: SUCCESS\n\nContent:\nhello\n---\n\nworld"
    );
}

#[test]
fn test_format_tool_result_error_status() {
    let doc = parse_json("{\"content\":[],\"isError\":true}").unwrap();
    let result = call_result_from_json(&doc).unwrap();
    let rendered = format_tool_result("broken", &result);
    assert!(rendered.contains("Status: ERROR"));
}

#[test]
fn test_format_prompt_result_text() {
    let doc = parse_json("{\"description\":\"greets\",\"messages\":[{\"role\":\"user\",\"content\":{\"type\":\"text\",\"text\":\"hi\"}}]}")
    .unwrap();
    let result = get_prompt_result_from_json(&doc).unwrap();
    let rendered = format_prompt_result("welcome", &result);
    assert_eq!(
        rendered,
        "Prompt Result: welcome\n\nDescription: greets\n\nMessages (1):\n\nRole: user\n\nContent:\nhi\n"
    );
}

#[test]
fn test_format_prompt_content_appends() {
    let doc = parse_json("{\"messages\":[{\"role\":\"user\",\"content\":{\"type\":\"image\",\"data\":\"abcd\",\"mimeType\":\"image/png\"}}]}")
    .unwrap();
    let result = get_prompt_result_from_json(&doc).unwrap();
    let content = match &result.messages[0].content {
        mcpeek::mcp_messages::PromptMessageContent::Single(c) => c,
        _ => panic!("expected a single content item"),
    };
    let mut out = "start:".to_string();
    format_prompt_content(&mut out, content);
    assert_eq!(out, "start:[Image: image/png (4 bytes)]");
}

#[test]
fn test_format_resource_read_result_text() {
    let doc = parse_json("{\"contents\":[{\"uri\":\"file:///a\",\"text\":\"body\",\"mimeType\":\"text/plain\"}]}")
    .unwrap();
    let result = read_result_from_json(&doc).unwrap();
    let rendered = format_resource_read_result("a", "file:///a", &result.contents);
    assert_eq!(
        rendered,
        "Resource Read Result: a\n\nURI: file:///a\n\nContents (1):\n\nMIME Type: text/plain\n\nbody"
    );
}

#[test]
fn test_format_resource_read_result_empty() {
    let rendered = format_resource_read_result("a", "file:///a", &Vec::new());
    assert_eq!(rendered, "Resource Read Result: a\n\nURI: file:///a\n\n(empty resource)\n");
}

#[test]
fn test_parse_input_schema_orders_required_first() {
    let schema = parse_json("{\"type\":\"object\",\"properties\":{\"alpha\":{\"type\":\"string\",\"description\":\"first\"},\"beta\":{\"type\":\"number\"},\"gamma\":{}},\"required\":[\"beta\"]}")
    .unwrap();
    let fields = parse_input_schema(&schema);
    assert_eq!(fields.len(), 3);
    assert_eq!(fields[0].name, "beta");
    assert!(fields[0].required);
    assert_eq!(fields[0].field_type, "number");
    assert_eq!(fields[1].name, "alpha");
    assert!(!fields[1].required);
    assert_eq!(fields[1].description.as_deref(), Some("first"));
    assert_eq!(fields[2].name, "gamma");
    assert_eq!(fields[2].field_type, "string");
}

#[test]
fn test_parse_input_schema_without_properties() {
    let schema = parse_json("{\"type\":\"object\"}").unwrap();
    assert!(parse_input_schema(&schema).is_empty());
    assert!(parse_input_schema(&JsonValue::Null).is_empty());
}

#[test]
fn test_log_buffer_push_and_drain() {
    let mut buffer = LogBuffer::new();
    buffer.push(LogEntry::new("INFO", "core", "first".to_string()));
    buffer.push(LogEntry::new("DEBUG", "core", "second".to_string()));

    let all = buffer.get_all();
    assert_eq!(all.len(), 2);
    assert_eq!(all[0].level, "INFO");
    assert_eq!(all[0].message, "first");
    assert_eq!(all[1].message, "second");

    // Reading does not remove anything; clearing does.
    assert_eq!(buffer.get_all().len(), 2);
    buffer.clear();
    assert!(buffer.get_all().is_empty());
}

#[test]
fn test_log_entry_fields() {
    let entry = LogEntry::new("WARN", "pipeline", "careful".to_string());
    assert_eq!(entry.level, "WARN");
    assert_eq!(entry.target, "pipeline");
    assert_eq!(entry.message, "careful");
    assert!(!entry.timestamp.is_empty());
}

#[test]
fn test_log_buffer_sheds_oldest_block_at_cap() {
    let mut buffer = LogBuffer::new();
    let mut n: usize = 0;
    while n < 10001 {
        buffer.push(LogEntry::new("INFO", "t", n.to_string()));
        n += 1;
    }
    let all = buffer.get_all();
    // Passing the cap sheds the oldest block; the newest entries survive.
    assert_eq!(all.len(), 9001);
    assert_eq!(all[0].message, "1000");
    assert_eq!(all[9000].message, "10000");
}
