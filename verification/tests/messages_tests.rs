//! The subprocess backend's typed messages.

use mcpeek::json::{json_to_string, parse_json, JsonValue};
use mcpeek::mcp_messages::{
    call_result_from_json, get_prompt_result_from_json, init_result_from_json,
    list_prompts_from_json, list_resources_from_json, list_tools_from_json, read_result_from_json,
    CallToolParams, ClientCapabilities, GetPromptParams, Implementation, InitializeParams,
    PromptContent, PromptMessageContent, ReadResourceParams, ResourceContents, RootsCapability,
    ToolContent,
};

fn parse(text: &str) -> JsonValue {
    parse_json(text).expect("test document should parse")
}

#[test]
fn test_initialize_params_construction() {
    let params = InitializeParams {
        protocol_version: "2024-11-05".to_string(),
        capabilities: ClientCapabilities { roots: None, sampling: None },
        client_info: Implementation { name: "mcpeek".to_string(), version: "0.1.0".to_string() },
    };

    assert_eq!(params.protocol_version, "2024-11-05");
    assert_eq!(params.client_info.name, "mcpeek");
}

#[test]
fn test_initialize_params_serialization() {
    let params = InitializeParams {
        protocol_version: "2024-11-05".to_string(),
        capabilities: ClientCapabilities {
            roots: Some(RootsCapability { list_changed: true }),
            sampling: None,
        },
        client_info: Implementation {
            name: "test_client".to_string(),
            version: "1.0.0".to_string(),
        },
    };

    let json_str = json_to_string(&params.to_json());
    assert!(json_str.contains("protocolVersion"));
    assert!(json_str.contains("clientInfo"));
    assert!(json_str.contains("listChanged"));

    let parsed = parse(&json_str);
    match parsed.get(&"protocolVersion".to_string()) {
        Some(JsonValue::Text(v)) => assert_eq!(v, "2024-11-05"),
        _ => panic!("protocolVersion missing"),
    }
    match parsed.get(&"clientInfo".to_string()).and_then(|i| i.get(&"name".to_string())) {
        Some(JsonValue::Text(v)) => assert_eq!(v, "test_client"),
        _ => panic!("clientInfo.name missing"),
    }
}

#[test]
fn test_initialize_params_optional_fields_skipped() {
    let params = InitializeParams {
        protocol_version: "2024-11-05".to_string(),
        capabilities: ClientCapabilities { roots: None, sampling: None },
        client_info: Implementation { name: "test".to_string(), version: "1.0".to_string() },
    };

    let json_str = json_to_string(&params.to_json());
    assert!(!json_str.contains("roots"));
    assert!(!json_str.contains("sampling"));
}

#[test]
fn test_camelcase_conversion() {
    // Wire field names are camel-cased, never snake-cased.
    let params = InitializeParams {
        protocol_version: "2024-11-05".to_string(),
        capabilities: ClientCapabilities { roots: None, sampling: None },
        client_info: Implementation { name: "test".to_string(), version: "1.0".to_string() },
    };

    let json_value = parse(&json_to_string(&params.to_json()));

    assert!(json_value.get(&"protocolVersion".to_string()).is_some());
    assert!(json_value.get(&"clientInfo".to_string()).is_some());
    assert!(json_value.get(&"protocol_version".to_string()).is_none());
    assert!(json_value.get(&"client_info".to_string()).is_none());
}

#[test]
fn test_server_capabilities_default() {
    let doc = parse(
        "{\"protocolVersion\":\"1\",\"capabilities\":{},\"serverInfo\":{\"name\":\"s\",\"version\":\"1\"}}",
    );
    let caps = init_result_from_json(&doc).unwrap().capabilities;
    assert!(caps.tools.is_none());
    assert!(caps.prompts.is_none());
    assert!(caps.resources.is_none());
}

#[test]
fn test_initialize_result_parsing() {
    let doc = parse("{\"protocolVersion\":\"2024-11-05\",\"capabilities\":{\"tools\":{\"listChanged\":true},\"resources\":{\"subscribe\":false}},\"serverInfo\":{\"name\":\"test_server\",\"version\":\"1.0.0\"}}");
    let result = init_result_from_json(&doc).unwrap();
    assert_eq!(result.protocol_version, "2024-11-05");
    assert_eq!(result.server_info.name, "test_server");
    assert_eq!(result.capabilities.tools.unwrap().list_changed, Some(true));
    let resources = result.capabilities.resources.unwrap();
    assert_eq!(resources.subscribe, Some(false));
    assert!(resources.list_changed.is_none());

    // A handshake result without its required members is rejected.
    assert!(init_result_from_json(&parse("{\"protocolVersion\":\"1\"}")).is_err());
}

#[test]
fn test_tool_serialization() {
    let doc = parse("{\"tools\":[{\"name\":\"test_tool\",\"description\":\"A test tool\",\"inputSchema\":{\"type\":\"object\",\"properties\":{\"arg1\":{\"type\":\"string\"}}}}]}");
    let parsed = list_tools_from_json(&doc).unwrap();
    assert_eq!(parsed.tools[0].name, "test_tool");
    assert_eq!(parsed.tools[0].description.as_deref(), Some("A test tool"));
}

#[test]
fn test_list_tools_result() {
    let doc = parse("{\"tools\":[{\"name\":\"tool1\",\"inputSchema\":{}}]}");
    let parsed = list_tools_from_json(&doc).unwrap();

    assert_eq!(parsed.tools.len(), 1);
    assert_eq!(parsed.tools[0].name, "tool1");
    assert!(parsed.tools[0].description.is_none());

    // A tool without its schema is rejected.
    assert!(list_tools_from_json(&parse("{\"tools\":[{\"name\":\"x\"}]}")).is_err());
}

#[test]
fn test_call_tool_params() {
    let params = CallToolParams {
        name: "my_tool".to_string(),
        arguments: Some(vec![("param1".to_string(), JsonValue::Text("value1".to_string()))]),
    };

    let json_str = json_to_string(&params.to_json());
    let parsed = parse(&json_str);

    match parsed.get(&"name".to_string()) {
        Some(JsonValue::Text(n)) => assert_eq!(n, "my_tool"),
        _ => panic!("name missing"),
    }
    assert!(parsed.get(&"arguments".to_string()).is_some());
}

#[test]
fn test_call_tool_params_construction() {
    let params = CallToolParams {
        name: "my_tool".to_string(),
        arguments: Some(vec![
            ("param1".to_string(), JsonValue::Text("value1".to_string())),
            ("param2".to_string(), JsonValue::Number("42".to_string())),
        ]),
    };

    assert_eq!(params.name, "my_tool");
    assert_eq!(params.arguments.as_ref().unwrap().len(), 2);
}

#[test]
fn test_call_tool_result() {
    let doc = parse(
        "{\"content\":[{\"type\":\"text\",\"text\":\"Success\"}],\"isError\":false}",
    );
    let parsed = call_result_from_json(&doc).unwrap();
    assert_eq!(parsed.content.len(), 1);
    assert_eq!(parsed.is_error, Some(false));
}

#[test]
fn test_tool_content_text_variant() {
    let doc = parse("{\"content\":[{\"type\":\"text\",\"text\":\"Hello, world!\"}]}");
    let parsed = call_result_from_json(&doc).unwrap();
    match &parsed.content[0] {
        ToolContent::Text { text } => assert_eq!(text, "Hello, world!"),
        _ => panic!("Expected Text variant"),
    }
    assert!(parsed.is_error.is_none());
}

#[test]
fn test_tool_content_image_variant() {
    let doc = parse(
        "{\"content\":[{\"type\":\"image\",\"data\":\"base64data\",\"mimeType\":\"image/png\"}]}",
    );
    let parsed = call_result_from_json(&doc).unwrap();
    match &parsed.content[0] {
        ToolContent::Image { data, mime_type } => {
            assert_eq!(data, "base64data");
            assert_eq!(mime_type, "image/png");
        }
        _ => panic!("Expected Image variant"),
    }
}

#[test]
fn test_prompt_with_arguments() {
    let doc = parse("{\"prompts\":[{\"name\":\"test_prompt\",\"description\":\"Test description\",\"arguments\":[{\"name\":\"arg1\",\"description\":\"First arg\",\"required\":true}]}]}");
    let parsed = list_prompts_from_json(&doc).unwrap();

    assert_eq!(parsed.prompts[0].name, "test_prompt");
    assert_eq!(parsed.prompts[0].arguments.as_ref().unwrap().len(), 1);
    assert_eq!(parsed.prompts[0].arguments.as_ref().unwrap()[0].required, Some(true));
}

#[test]
fn test_prompt_content_variants() {
    let doc = parse("{\"messages\":[{\"role\":\"user\",\"content\":{\"type\":\"text\",\"text\":\"Prompt text\"}}]}");
    let parsed = get_prompt_result_from_json(&doc).unwrap();
    match &parsed.messages[0].content {
        PromptMessageContent::Single(PromptContent::Text { text }) => {
            assert_eq!(text, "Prompt text")
        }
        _ => panic!("Expected Text variant"),
    }

    let doc = parse("{\"messages\":[{\"role\":\"user\",\"content\":[{\"type\":\"text\",\"text\":\"a\"},{\"type\":\"text\",\"text\":\"b\"}]}]}");
    let parsed = get_prompt_result_from_json(&doc).unwrap();
    match &parsed.messages[0].content {
        PromptMessageContent::Multiple(cs) => assert_eq!(cs.len(), 2),
        _ => panic!("Expected Multiple variant"),
    }
}

#[test]
fn test_get_prompt_params() {
    let params = GetPromptParams {
        name: "my_prompt".to_string(),
        arguments: Some(vec![("key".to_string(), "value".to_string())]),
    };

    let json_str = json_to_string(&params.to_json());
    let parsed = parse(&json_str);

    match parsed.get(&"name".to_string()) {
        Some(JsonValue::Text(n)) => assert_eq!(n, "my_prompt"),
        _ => panic!("name missing"),
    }
    assert!(parsed.get(&"arguments".to_string()).is_some());
}

#[test]
fn test_get_prompt_params_construction() {
    let params = GetPromptParams {
        name: "test_prompt".to_string(),
        arguments: Some(vec![("arg1".to_string(), "val1".to_string())]),
    };

    assert_eq!(params.name, "test_prompt");
    assert!(params.arguments.is_some());
}

#[test]
fn test_resource_serialization() {
    let doc = parse("{\"resources\":[{\"uri\":\"file:///test.txt\",\"name\":\"test.txt\",\"description\":\"A test file\",\"mimeType\":\"text/plain\"}]}");
    let parsed = list_resources_from_json(&doc).unwrap();

    assert_eq!(parsed.resources[0].uri, "file:///test.txt");
    assert_eq!(parsed.resources[0].mime_type.as_deref(), Some("text/plain"));
}

#[test]
fn test_resource_contents_text_variant() {
    let doc = parse("{\"contents\":[{\"uri\":\"file:///test.txt\",\"text\":\"File contents\",\"mimeType\":\"text/plain\"}]}");
    let parsed = read_result_from_json(&doc).unwrap();
    match &parsed.contents[0] {
        ResourceContents::Text { uri, text, .. } => {
            assert_eq!(uri, "file:///test.txt");
            assert_eq!(text, "File contents");
        }
        _ => panic!("Expected Text variant"),
    }
}

#[test]
fn test_resource_contents_blob_variant() {
    let doc = parse("{\"contents\":[{\"uri\":\"file:///test.bin\",\"blob\":\"base64data\",\"mimeType\":\"application/octet-stream\"}]}");
    let parsed = read_result_from_json(&doc).unwrap();
    match &parsed.contents[0] {
        ResourceContents::Blob { blob, .. } => {
            assert_eq!(blob, "base64data");
        }
        _ => panic!("Expected Blob variant"),
    }
}

#[test]
fn test_read_resource_params() {
    let params = ReadResourceParams { uri: "file:///test.txt".to_string() };

    let json_str = json_to_string(&params.to_json());
    let parsed = parse(&json_str);
    match parsed.get(&"uri".to_string()) {
        Some(JsonValue::Text(u)) => assert_eq!(u, "file:///test.txt"),
        _ => panic!("uri missing"),
    }
}

#[test]
fn test_read_resource_params_construction() {
    let params = ReadResourceParams { uri: "file:///path/to/resource".to_string() };

    assert_eq!(params.uri, "file:///path/to/resource");
}

#[test]
fn test_server_info_storage() {
    let doc = parse("{\"protocolVersion\":\"2024-11-05\",\"capabilities\":{},\"serverInfo\":{\"name\":\"test_server\",\"version\":\"1.0.0\"}}");
    let info = init_result_from_json(&doc).unwrap();

    let mut stored = None;
    stored = stored.or(Some(info));

    assert!(stored.is_some());
    assert_eq!(stored.as_ref().unwrap().server_info.name, "test_server");
}
