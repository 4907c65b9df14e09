//! The capability interface's shared data types: what both backends hand to
//! their consumer.

use vstd::prelude::*;
use crate::json::JsonValue;

verus! {

/// A tool, as either backend describes it.
pub struct ProtocolTool {
    pub name: String,
    pub description: Option<String>,
    pub input_schema: JsonValue,
}

/// A prompt, as the subprocess backend describes it.
pub struct ProtocolPrompt {
    pub name: String,
    pub description: Option<String>,
    pub arguments: Vec<PromptArgument>,
}

pub struct PromptArgument {
    pub name: String,
    pub description: Option<String>,
    pub required: bool,
}

/// A resource, as the subprocess backend describes it.
pub struct ProtocolResource {
    pub uri: String,
    pub name: String,
    pub description: Option<String>,
    pub mime_type: Option<String>,
}

/// What calling a tool produced: content items in call-result order, and
/// whether the call failed.
#[derive(Debug)]
pub struct ToolCallResult {
    pub content: Vec<ContentItem>,
    pub is_error: bool,
}

#[allow(inconsistent_fields)]
#[derive(Debug)]
pub enum ContentItem {
    Text(String),
    Image { data: String, mime_type: String },
    Binary { data: Vec<u8>, mime_type: String },
}

pub struct PromptResult {
    pub description: Option<String>,
    pub messages: Vec<PromptMessage>,
}

pub struct PromptMessage {
    pub role: String,
    pub content: String,
}

pub struct ResourceReadResult {
    pub contents: Vec<ResourceContent>,
}

pub enum ResourceContent {
    Text { uri: String, text: String, mime_type: Option<String> },
    Binary { uri: String, data: Vec<u8>, mime_type: Option<String> },
}

/// What a backend says about itself after its handshake.
pub struct ServerInfo {
    pub name: String,
    pub version: String,
    pub protocol_type: String,
    pub capabilities: Vec<String>,
}

} // verus!
