//! The subprocess backend's typed messages: what the client sends for each
//! capability operation, and what it reads out of each result, with the
//! exact field spellings of the wire.

use vstd::prelude::*;
use crate::json::{
    JsonValue, JsonData, member_of, data_of_fields, data_of_list, req_str_at, req_str_is,
    opt_str_at, opt_str_is, member_string, member_opt_string, lemma_data_of_fields_index,
    lemma_data_of_fields_len, lemma_data_of_list_index, lemma_data_of_list_len,
};

verus! {

broadcast use vstd::std_specs::vec::group_vec_axioms, vstd::seq::group_seq_axioms;

// --- more field kinds ------------------------------------------------------

/// An optional boolean member: absent or null means none.
pub open spec fn opt_obool_at(m: Option<JsonData>) -> bool {
    match m {
        None => true,
        Some(d) => d is Null || d is Bool,
    }
}

pub open spec fn opt_obool_is(m: Option<JsonData>, o: Option<bool>) -> bool {
    match m {
        None => o is None,
        Some(d) => match d {
            JsonData::Null => o is None,
            JsonData::Bool { b } => o == Some(b),
            _ => false,
        },
    }
}

fn member_opt_bool(v: &JsonValue, key: &str) -> (r: Result<Option<bool>, ()>)
    ensures
        match r {
            Ok(o) => opt_obool_is(member_of(v@, key@), o),
            Err(_) => !opt_obool_at(member_of(v@, key@)),
        },
{
    match v.get(&String::from_str(key)) {
        Some(x) => match x {
            JsonValue::Null => Ok(None),
            JsonValue::Bool(b) => Ok(Some(*b)),
            _ => Err(()),
        },
        None => Ok(None),
    }
}

/// An optional object member with any values: absent or null means none.
pub open spec fn opt_map_at(m: Option<JsonData>) -> bool {
    match m {
        None => true,
        Some(d) => d is Null || d is Obj,
    }
}

pub open spec fn opt_map_is(m: Option<JsonData>, o: Option<Vec<(String, JsonValue)>>) -> bool {
    match m {
        None => o is None,
        Some(d) => match d {
            JsonData::Null => o is None,
            JsonData::Obj { fields } => o matches Some(pairs) && data_of_fields(pairs@) == fields,
            _ => false,
        },
    }
}

fn member_opt_map(v: &JsonValue, key: &str) -> (r: Result<Option<Vec<(String, JsonValue)>>, ()>)
    ensures
        match r {
            Ok(o) => opt_map_is(member_of(v@, key@), o),
            Err(_) => !opt_map_at(member_of(v@, key@)),
        },
{
    match v.get(&String::from_str(key)) {
        Some(x) => match x {
            JsonValue::Null => Ok(None),
            JsonValue::Object(_) => {
                let copy = x.duplicate();
                match copy {
                    JsonValue::Object(fields) => Ok(Some(fields)),
                    _ => Err(()),
                }
            },
            _ => Err(()),
        },
        None => Ok(None),
    }
}

// --- handshake --------------------------------------------------------------

pub struct Implementation {
    pub name: String,
    pub version: String,
}

pub open spec fn impl_shape(d: JsonData) -> bool {
    &&& d is Obj
    &&& req_str_at(member_of(d, "name"@))
    &&& req_str_at(member_of(d, "version"@))
}

pub open spec fn impl_matches(d: JsonData, x: Implementation) -> bool {
    &&& req_str_is(member_of(d, "name"@), x.name)
    &&& req_str_is(member_of(d, "version"@), x.version)
}

fn impl_from_json(v: &JsonValue) -> (r: Result<Implementation, ()>)
    ensures
        r is Ok <==> impl_shape(v@),
        r matches Ok(x) ==> impl_matches(v@, x),
{
    if v.as_object().is_none() {
        return Err(());
    }
    let name = match member_string(v, "name") {
        Some(s) => s,
        None => {
            return Err(());
        },
    };
    let version = match member_string(v, "version") {
        Some(s) => s,
        None => {
            return Err(());
        },
    };
    Ok(Implementation { name, version })
}

pub struct RootsCapability {
    pub list_changed: bool,
}

pub struct ClientCapabilities {
    pub roots: Option<RootsCapability>,
    pub sampling: Option<Vec<(String, JsonValue)>>,
}

pub struct InitializeParams {
    pub protocol_version: String,
    pub capabilities: ClientCapabilities,
    pub client_info: Implementation,
}

pub open spec fn impl_json(x: Implementation) -> JsonData {
    JsonData::Obj {
        fields: seq![
            ("name"@, JsonData::Str { text: x.name@ }),
            ("version"@, JsonData::Str { text: x.version@ }),
        ],
    }
}

pub open spec fn client_caps_json(c: ClientCapabilities) -> JsonData {
    let base: Seq<(Seq<char>, JsonData)> = Seq::empty();
    let with_roots = match c.roots {
        Some(rc) => base + seq![
            (
                "roots"@,
                JsonData::Obj { fields: seq![("listChanged"@, JsonData::Bool { b: rc.list_changed })] },
            ),
        ],
        None => base,
    };
    let with_sampling = match c.sampling {
        Some(m) => with_roots + seq![("sampling"@, JsonData::Obj { fields: data_of_fields(m@) })],
        None => with_roots,
    };
    JsonData::Obj { fields: with_sampling }
}

pub open spec fn init_params_json(p: InitializeParams) -> JsonData {
    JsonData::Obj {
        fields: seq![
            ("protocolVersion"@, JsonData::Str { text: p.protocol_version@ }),
            ("capabilities"@, client_caps_json(p.capabilities)),
            ("clientInfo"@, impl_json(p.client_info)),
        ],
    }
}

impl InitializeParams {
    /// This handshake request's parameter object, fields in wire order,
    /// absent capabilities left out.
    pub fn to_json(&self) -> (r: JsonValue)
        ensures
            r@ == init_params_json(*self),
    {
        let mut caps: Vec<(String, JsonValue)> = Vec::new();
        match &self.capabilities.roots {
            Some(rc) => {
                let mut inner: Vec<(String, JsonValue)> = Vec::new();
                inner.push((String::from_str("listChanged"), JsonValue::Bool(rc.list_changed)));
                proof {
                    lemma_data_of_fields_len(inner@);
                    lemma_data_of_fields_index(inner@, 0);
                    assert(data_of_fields(inner@) =~= seq![
                        ("listChanged"@, JsonData::Bool { b: rc.list_changed }),
                    ]);
                }
                caps.push((String::from_str("roots"), JsonValue::Object(inner)));
            },
            None => {},
        }
        match &self.capabilities.sampling {
            Some(m) => {
                let mut copy: Vec<(String, JsonValue)> = Vec::new();
                let mut i: usize = 0;
                while i < m.len()
                    invariant
                        0 <= i <= m@.len(),
                        copy@.len() == i,
                        forall|j: int|
                            0 <= j < i ==> (#[trigger] copy@[j]).0@ == m@[j].0@ && copy@[j].1@
                                == m@[j].1@,
                    decreases m@.len() - i,
                {
                    copy.push((m[i].0.clone(), m[i].1.duplicate()));
                    i = i + 1;
                }
                proof {
                    broadcast use lemma_data_of_fields_index;

                    lemma_data_of_fields_len(copy@);
                    lemma_data_of_fields_len(m@);
                    assert(data_of_fields(copy@) =~= data_of_fields(m@));
                }
                caps.push((String::from_str("sampling"), JsonValue::Object(copy)));
            },
            None => {},
        }
        proof {
            broadcast use lemma_data_of_fields_index;

            lemma_data_of_fields_len(caps@);
            assert(data_of_fields(caps@) =~= client_caps_json(self.capabilities)->Obj_fields);
        }
        let mut info: Vec<(String, JsonValue)> = Vec::new();
        info.push((String::from_str("name"), JsonValue::Text(self.client_info.name.clone())));
        info.push((String::from_str("version"), JsonValue::Text(self.client_info.version.clone())));
        proof {
            broadcast use lemma_data_of_fields_index;

            lemma_data_of_fields_len(info@);
            assert(data_of_fields(info@) =~= impl_json(self.client_info)->Obj_fields);
        }
        let mut fields: Vec<(String, JsonValue)> = Vec::new();
        fields.push(
            (
                String::from_str("protocolVersion"),
                JsonValue::Text(self.protocol_version.clone()),
            ),
        );
        fields.push((String::from_str("capabilities"), JsonValue::Object(caps)));
        fields.push((String::from_str("clientInfo"), JsonValue::Object(info)));
        proof {
            broadcast use lemma_data_of_fields_index;

            lemma_data_of_fields_len(fields@);
            assert(data_of_fields(fields@) =~= init_params_json(*self)->Obj_fields);
        }
        JsonValue::Object(fields)
    }
}

pub struct ToolsCapability {
    pub list_changed: Option<bool>,
}

pub struct PromptsCapability {
    pub list_changed: Option<bool>,
}

pub struct ResourcesCapability {
    pub subscribe: Option<bool>,
    pub list_changed: Option<bool>,
}

pub struct ServerCapabilities {
    pub tools: Option<ToolsCapability>,
    pub prompts: Option<PromptsCapability>,
    pub resources: Option<ResourcesCapability>,
    pub logging: Option<Vec<(String, JsonValue)>>,
}

pub struct InitializeResult {
    pub protocol_version: String,
    pub capabilities: ServerCapabilities,
    pub server_info: Implementation,
}

pub open spec fn tools_cap_shape(d: JsonData) -> bool {
    d is Obj && opt_obool_at(member_of(d, "listChanged"@))
}

pub open spec fn tools_cap_matches(d: JsonData, x: ToolsCapability) -> bool {
    opt_obool_is(member_of(d, "listChanged"@), x.list_changed)
}

pub open spec fn resources_cap_shape(d: JsonData) -> bool {
    &&& d is Obj
    &&& opt_obool_at(member_of(d, "subscribe"@))
    &&& opt_obool_at(member_of(d, "listChanged"@))
}

pub open spec fn resources_cap_matches(d: JsonData, x: ResourcesCapability) -> bool {
    &&& opt_obool_is(member_of(d, "subscribe"@), x.subscribe)
    &&& opt_obool_is(member_of(d, "listChanged"@), x.list_changed)
}

pub open spec fn server_caps_shape(d: JsonData) -> bool {
    &&& d is Obj
    &&& match member_of(d, "tools"@) {
        None => true,
        Some(t) => t is Null || tools_cap_shape(t),
    }
    &&& match member_of(d, "prompts"@) {
        None => true,
        Some(t) => t is Null || tools_cap_shape(t),
    }
    &&& match member_of(d, "resources"@) {
        None => true,
        Some(t) => t is Null || resources_cap_shape(t),
    }
    &&& opt_map_at(member_of(d, "logging"@))
}

pub open spec fn server_caps_matches(d: JsonData, x: ServerCapabilities) -> bool {
    &&& match member_of(d, "tools"@) {
        None => x.tools is None,
        Some(t) => {
            if t is Null {
                x.tools is None
            } else {
                x.tools matches Some(c) && tools_cap_matches(t, ToolsCapability {
                    list_changed: c.list_changed,
                })
            }
        },
    }
    &&& match member_of(d, "prompts"@) {
        None => x.prompts is None,
        Some(t) => {
            if t is Null {
                x.prompts is None
            } else {
                x.prompts matches Some(c) && tools_cap_matches(t, ToolsCapability {
                    list_changed: c.list_changed,
                })
            }
        },
    }
    &&& match member_of(d, "resources"@) {
        None => x.resources is None,
        Some(t) => {
            if t is Null {
                x.resources is None
            } else {
                x.resources matches Some(c) && resources_cap_matches(t, c)
            }
        },
    }
    &&& opt_map_is(member_of(d, "logging"@), x.logging)
}

fn server_caps_from_json(v: &JsonValue) -> (r: Result<ServerCapabilities, ()>)
    ensures
        r is Ok <==> server_caps_shape(v@),
        r matches Ok(x) ==> server_caps_matches(v@, x),
{
    if v.as_object().is_none() {
        return Err(());
    }
    let tools: Option<ToolsCapability> = match v.get(&String::from_str("tools")) {
        Some(t) => {
            if let JsonValue::Null = t {
                None
            } else {
                if t.as_object().is_none() {
                    return Err(());
                }
                match member_opt_bool(t, "listChanged") {
                    Ok(o) => Some(ToolsCapability { list_changed: o }),
                    Err(_) => {
                        return Err(());
                    },
                }
            }
        },
        None => None,
    };
    let prompts: Option<PromptsCapability> = match v.get(&String::from_str("prompts")) {
        Some(t) => {
            if let JsonValue::Null = t {
                None
            } else {
                if t.as_object().is_none() {
                    return Err(());
                }
                match member_opt_bool(t, "listChanged") {
                    Ok(o) => Some(PromptsCapability { list_changed: o }),
                    Err(_) => {
                        return Err(());
                    },
                }
            }
        },
        None => None,
    };
    let resources: Option<ResourcesCapability> = match v.get(&String::from_str("resources")) {
        Some(t) => {
            if let JsonValue::Null = t {
                None
            } else {
                if t.as_object().is_none() {
                    return Err(());
                }
                let subscribe = match member_opt_bool(t, "subscribe") {
                    Ok(o) => o,
                    Err(_) => {
                        return Err(());
                    },
                };
                let list_changed = match member_opt_bool(t, "listChanged") {
                    Ok(o) => o,
                    Err(_) => {
                        return Err(());
                    },
                };
                Some(ResourcesCapability { subscribe, list_changed })
            }
        },
        None => None,
    };
    let logging = match member_opt_map(v, "logging") {
        Ok(o) => o,
        Err(_) => {
            return Err(());
        },
    };
    Ok(ServerCapabilities { tools, prompts, resources, logging })
}

pub open spec fn init_result_shape(d: JsonData) -> bool {
    &&& d is Obj
    &&& req_str_at(member_of(d, "protocolVersion"@))
    &&& match member_of(d, "capabilities"@) {
        Some(c) => server_caps_shape(c),
        None => false,
    }
    &&& match member_of(d, "serverInfo"@) {
        Some(i) => impl_shape(i),
        None => false,
    }
}

pub open spec fn init_result_matches(d: JsonData, x: InitializeResult) -> bool {
    &&& req_str_is(member_of(d, "protocolVersion"@), x.protocol_version)
    &&& match member_of(d, "capabilities"@) {
        Some(c) => server_caps_matches(c, x.capabilities),
        None => false,
    }
    &&& match member_of(d, "serverInfo"@) {
        Some(i) => impl_matches(i, x.server_info),
        None => false,
    }
}

/// Reads a handshake result; `Err` exactly when the shape is wrong.
pub fn init_result_from_json(v: &JsonValue) -> (r: Result<InitializeResult, ()>)
    ensures
        r is Ok <==> init_result_shape(v@),
        r matches Ok(x) ==> init_result_matches(v@, x),
{
    if v.as_object().is_none() {
        return Err(());
    }
    let protocol_version = match member_string(v, "protocolVersion") {
        Some(s) => s,
        None => {
            return Err(());
        },
    };
    let capabilities = match v.get(&String::from_str("capabilities")) {
        Some(c) => match server_caps_from_json(c) {
            Ok(x) => x,
            Err(_) => {
                return Err(());
            },
        },
        None => {
            return Err(());
        },
    };
    let server_info = match v.get(&String::from_str("serverInfo")) {
        Some(i) => match impl_from_json(i) {
            Ok(x) => x,
            Err(_) => {
                return Err(());
            },
        },
        None => {
            return Err(());
        },
    };
    Ok(InitializeResult { protocol_version, capabilities, server_info })
}

// --- tools -------------------------------------------------------------------

pub struct Tool {
    pub name: String,
    pub description: Option<String>,
    pub input_schema: JsonValue,
}

pub open spec fn tool_shape(d: JsonData) -> bool {
    &&& d is Obj
    &&& req_str_at(member_of(d, "name"@))
    &&& opt_str_at(member_of(d, "description"@))
    &&& member_of(d, "inputSchema"@) is Some
}

pub open spec fn tool_matches(d: JsonData, x: Tool) -> bool {
    &&& req_str_is(member_of(d, "name"@), x.name)
    &&& opt_str_is(member_of(d, "description"@), x.description)
    &&& member_of(d, "inputSchema"@) == Some(x.input_schema@)
}

fn tool_from_json(v: &JsonValue) -> (r: Result<Tool, ()>)
    ensures
        r is Ok <==> tool_shape(v@),
        r matches Ok(x) ==> tool_matches(v@, x),
{
    if v.as_object().is_none() {
        return Err(());
    }
    let name = match member_string(v, "name") {
        Some(s) => s,
        None => {
            return Err(());
        },
    };
    let description = match member_opt_string(v, "description") {
        Ok(o) => o,
        Err(_) => {
            return Err(());
        },
    };
    let input_schema = match v.get(&String::from_str("inputSchema")) {
        Some(x) => x.duplicate(),
        None => {
            return Err(());
        },
    };
    Ok(Tool { name, description, input_schema })
}

pub struct ListToolsResult {
    pub tools: Vec<Tool>,
}

pub open spec fn list_tools_shape(d: JsonData) -> bool {
    &&& d is Obj
    &&& match member_of(d, "tools"@) {
        Some(JsonData::Arr { items }) => forall|i: int|
            0 <= i < items.len() ==> tool_shape(#[trigger] items[i]),
        _ => false,
    }
}

pub open spec fn list_tools_matches(d: JsonData, x: ListToolsResult) -> bool {
    match member_of(d, "tools"@) {
        Some(JsonData::Arr { items }) => items.len() == x.tools@.len() && forall|i: int|
            0 <= i < items.len() ==> tool_matches(items[i], #[trigger] x.tools@[i]),
        _ => false,
    }
}

/// Reads a tools list; `Err` exactly when the shape is wrong.
pub fn list_tools_from_json(v: &JsonValue) -> (r: Result<ListToolsResult, ()>)
    ensures
        r is Ok <==> list_tools_shape(v@),
        r matches Ok(x) ==> list_tools_matches(v@, x),
{
    if v.as_object().is_none() {
        return Err(());
    }
    match v.get(&String::from_str("tools")) {
        Some(x) => match x.as_array() {
            Some(items) => {
                let ghost gitems = data_of_list(items@);
                let mut out: Vec<Tool> = Vec::new();
                let mut i: usize = 0;
                proof {
                    lemma_data_of_list_len(items@);
                }
                while i < items.len()
                    invariant
                        0 <= i <= items@.len(),
                        gitems == data_of_list(items@),
                        gitems.len() == items@.len(),
                        v@ is Obj,
                        member_of(v@, "tools"@) == Some(JsonData::Arr { items: gitems }),
                        x@ == (JsonData::Arr { items: gitems }),
                        out@.len() == i,
                        forall|j: int|
                            0 <= j < i ==> tool_shape(#[trigger] gitems[j]) && tool_matches(
                                gitems[j],
                                out@[j],
                            ),
                    decreases items@.len() - i,
                {
                    proof {
                        lemma_data_of_list_index(items@, i as int);
                    }
                    match tool_from_json(&items[i]) {
                        Ok(t) => {
                            out.push(t);
                        },
                        Err(_) => {
                            proof {
                                assert(!tool_shape(gitems[i as int]));
                                assert(x@->Arr_items == gitems);
                            }
                            return Err(());
                        },
                    }
                    i = i + 1;
                }
                proof {
                    assert(x@->Arr_items == gitems);
                }
                Ok(ListToolsResult { tools: out })
            },
            None => Err(()),
        },
        None => Err(()),
    }
}

pub struct CallToolParams {
    pub name: String,
    pub arguments: Option<Vec<(String, JsonValue)>>,
}

pub open spec fn call_params_json(p: CallToolParams) -> JsonData {
    let base = seq![("name"@, JsonData::Str { text: p.name@ })];
    JsonData::Obj {
        fields: match p.arguments {
            Some(args) => base + seq![
                ("arguments"@, JsonData::Obj { fields: data_of_fields(args@) }),
            ],
            None => base,
        },
    }
}

impl CallToolParams {
    /// This call's parameter object: the tool's name, and the arguments
    /// object when any were given.
    pub fn to_json(&self) -> (r: JsonValue)
        ensures
            r@ == call_params_json(*self),
    {
        let mut fields: Vec<(String, JsonValue)> = Vec::new();
        fields.push((String::from_str("name"), JsonValue::Text(self.name.clone())));
        match &self.arguments {
            Some(args) => {
                let mut copy: Vec<(String, JsonValue)> = Vec::new();
                let mut i: usize = 0;
                while i < args.len()
                    invariant
                        0 <= i <= args@.len(),
                        copy@.len() == i,
                        forall|j: int|
                            0 <= j < i ==> (#[trigger] copy@[j]).0@ == args@[j].0@ && copy@[j].1@
                                == args@[j].1@,
                    decreases args@.len() - i,
                {
                    copy.push((args[i].0.clone(), args[i].1.duplicate()));
                    i = i + 1;
                }
                proof {
                    broadcast use lemma_data_of_fields_index;

                    lemma_data_of_fields_len(copy@);
                    lemma_data_of_fields_len(args@);
                    assert(data_of_fields(copy@) =~= data_of_fields(args@));
                }
                fields.push((String::from_str("arguments"), JsonValue::Object(copy)));
            },
            None => {},
        }
        proof {
            broadcast use lemma_data_of_fields_index;

            lemma_data_of_fields_len(fields@);
            assert(data_of_fields(fields@) =~= call_params_json(*self)->Obj_fields);
        }
        JsonValue::Object(fields)
    }
}

// --- call results ------------------------------------------------------------

pub enum ResourceContents {
    Text { uri: String, text: String, mime_type: Option<String> },
    Blob { uri: String, blob: String, mime_type: Option<String> },
}

/// The text variant comes first, as the wire's untagged reading does: an
/// object with string `uri` and `text` (and a well-kinded `mimeType`) is
/// text; otherwise one with string `blob` is binary.
pub open spec fn rc_text_shape(d: JsonData) -> bool {
    &&& d is Obj
    &&& req_str_at(member_of(d, "uri"@))
    &&& req_str_at(member_of(d, "text"@))
    &&& opt_str_at(member_of(d, "mimeType"@))
}

pub open spec fn rc_blob_shape(d: JsonData) -> bool {
    &&& d is Obj
    &&& req_str_at(member_of(d, "uri"@))
    &&& req_str_at(member_of(d, "blob"@))
    &&& opt_str_at(member_of(d, "mimeType"@))
}

pub open spec fn rc_shape(d: JsonData) -> bool {
    rc_text_shape(d) || rc_blob_shape(d)
}

pub open spec fn rc_matches(d: JsonData, x: ResourceContents) -> bool {
    if rc_text_shape(d) {
        match x {
            ResourceContents::Text { uri, text, mime_type } => {
                &&& req_str_is(member_of(d, "uri"@), uri)
                &&& req_str_is(member_of(d, "text"@), text)
                &&& opt_str_is(member_of(d, "mimeType"@), mime_type)
            },
            _ => false,
        }
    } else {
        match x {
            ResourceContents::Blob { uri, blob, mime_type } => {
                &&& req_str_is(member_of(d, "uri"@), uri)
                &&& req_str_is(member_of(d, "blob"@), blob)
                &&& opt_str_is(member_of(d, "mimeType"@), mime_type)
            },
            _ => false,
        }
    }
}

fn rc_from_json(v: &JsonValue) -> (r: Result<ResourceContents, ()>)
    ensures
        r is Ok <==> rc_shape(v@),
        r matches Ok(x) ==> rc_matches(v@, x),
{
    if v.as_object().is_none() {
        return Err(());
    }
    let uri = match member_string(v, "uri") {
        Some(s) => s,
        None => {
            return Err(());
        },
    };
    let mime_type = match member_opt_string(v, "mimeType") {
        Ok(o) => o,
        Err(_) => {
            return Err(());
        },
    };
    match member_string(v, "text") {
        Some(text) => Ok(ResourceContents::Text { uri, text, mime_type }),
        None => match member_string(v, "blob") {
            Some(blob) => Ok(ResourceContents::Blob { uri, blob, mime_type }),
            None => Err(()),
        },
    }
}

pub enum ToolContent {
    Text { text: String },
    Image { data: String, mime_type: String },
    Resource { resource: ResourceContents },
}

pub open spec fn tc_shape(d: JsonData) -> bool {
    &&& d is Obj
    &&& match member_of(d, "type"@) {
        Some(JsonData::Str { text: t }) => {
            if t == "text"@ {
                req_str_at(member_of(d, "text"@))
            } else if t == "image"@ {
                req_str_at(member_of(d, "data"@)) && req_str_at(member_of(d, "mimeType"@))
            } else if t == "resource"@ {
                match member_of(d, "resource"@) {
                    Some(rc) => rc_shape(rc),
                    None => false,
                }
            } else {
                false
            }
        },
        _ => false,
    }
}

pub open spec fn tc_matches(d: JsonData, x: ToolContent) -> bool {
    match x {
        ToolContent::Text { text } => {
            &&& member_of(d, "type"@) == Some(JsonData::Str { text: "text"@ })
            &&& req_str_is(member_of(d, "text"@), text)
        },
        ToolContent::Image { data, mime_type } => {
            &&& member_of(d, "type"@) == Some(JsonData::Str { text: "image"@ })
            &&& req_str_is(member_of(d, "data"@), data)
            &&& req_str_is(member_of(d, "mimeType"@), mime_type)
        },
        ToolContent::Resource { resource } => {
            &&& member_of(d, "type"@) == Some(JsonData::Str { text: "resource"@ })
            &&& match member_of(d, "resource"@) {
                Some(rc) => rc_matches(rc, resource),
                None => false,
            }
        },
    }
}

fn tc_from_json(v: &JsonValue) -> (r: Result<ToolContent, ()>)
    ensures
        r is Ok <==> tc_shape(v@),
        r matches Ok(x) ==> tc_matches(v@, x),
{
    if v.as_object().is_none() {
        return Err(());
    }
    let tag = match member_string(v, "type") {
        Some(s) => s,
        None => {
            return Err(());
        },
    };
    proof {
        reveal_strlit("text");
        reveal_strlit("image");
        reveal_strlit("resource");
    }
    if tag == String::from_str("text") {
        let text = match member_string(v, "text") {
            Some(s) => s,
            None => {
                return Err(());
            },
        };
        return Ok(ToolContent::Text { text });
    }
    if tag == String::from_str("image") {
        let data = match member_string(v, "data") {
            Some(s) => s,
            None => {
                return Err(());
            },
        };
        let mime_type = match member_string(v, "mimeType") {
            Some(s) => s,
            None => {
                return Err(());
            },
        };
        return Ok(ToolContent::Image { data, mime_type });
    }
    if tag == String::from_str("resource") {
        let resource = match v.get(&String::from_str("resource")) {
            Some(rc) => match rc_from_json(rc) {
                Ok(x) => x,
                Err(_) => {
                    return Err(());
                },
            },
            None => {
                return Err(());
            },
        };
        return Ok(ToolContent::Resource { resource });
    }
    Err(())
}

pub struct CallToolResult {
    pub content: Vec<ToolContent>,
    pub is_error: Option<bool>,
}

pub open spec fn call_result_shape(d: JsonData) -> bool {
    &&& d is Obj
    &&& match member_of(d, "content"@) {
        Some(JsonData::Arr { items }) => forall|i: int|
            0 <= i < items.len() ==> tc_shape(#[trigger] items[i]),
        _ => false,
    }
    &&& opt_obool_at(member_of(d, "isError"@))
}

pub open spec fn call_result_matches(d: JsonData, x: CallToolResult) -> bool {
    &&& match member_of(d, "content"@) {
        Some(JsonData::Arr { items }) => items.len() == x.content@.len() && forall|i: int|
            0 <= i < items.len() ==> tc_matches(items[i], #[trigger] x.content@[i]),
        _ => false,
    }
    &&& opt_obool_is(member_of(d, "isError"@), x.is_error)
}

/// Reads a tool-call result, content items in call-result order; `Err`
/// exactly when the shape is wrong.
pub fn call_result_from_json(v: &JsonValue) -> (r: Result<CallToolResult, ()>)
    ensures
        r is Ok <==> call_result_shape(v@),
        r matches Ok(x) ==> call_result_matches(v@, x),
{
    if v.as_object().is_none() {
        return Err(());
    }
    let is_error = match member_opt_bool(v, "isError") {
        Ok(o) => o,
        Err(_) => {
            return Err(());
        },
    };
    match v.get(&String::from_str("content")) {
        Some(x) => match x.as_array() {
            Some(items) => {
                let ghost gitems = data_of_list(items@);
                let mut out: Vec<ToolContent> = Vec::new();
                let mut i: usize = 0;
                proof {
                    lemma_data_of_list_len(items@);
                }
                while i < items.len()
                    invariant
                        0 <= i <= items@.len(),
                        gitems == data_of_list(items@),
                        gitems.len() == items@.len(),
                        v@ is Obj,
                        member_of(v@, "content"@) == Some(JsonData::Arr { items: gitems }),
                        x@ == (JsonData::Arr { items: gitems }),
                        opt_obool_is(member_of(v@, "isError"@), is_error),
                        out@.len() == i,
                        forall|j: int|
                            0 <= j < i ==> tc_shape(#[trigger] gitems[j]) && tc_matches(
                                gitems[j],
                                out@[j],
                            ),
                    decreases items@.len() - i,
                {
                    proof {
                        lemma_data_of_list_index(items@, i as int);
                    }
                    match tc_from_json(&items[i]) {
                        Ok(t) => {
                            out.push(t);
                        },
                        Err(_) => {
                            proof {
                                assert(!tc_shape(gitems[i as int]));
                                assert(x@->Arr_items == gitems);
                            }
                            return Err(());
                        },
                    }
                    i = i + 1;
                }
                proof {
                    assert(x@->Arr_items == gitems);
                }
                Ok(CallToolResult { content: out, is_error })
            },
            None => Err(()),
        },
        None => Err(()),
    }
}

// --- prompts -----------------------------------------------------------------

pub struct PromptArgument {
    pub name: String,
    pub description: Option<String>,
    pub required: Option<bool>,
}

pub open spec fn prompt_arg_shape(d: JsonData) -> bool {
    &&& d is Obj
    &&& req_str_at(member_of(d, "name"@))
    &&& opt_str_at(member_of(d, "description"@))
    &&& opt_obool_at(member_of(d, "required"@))
}

pub open spec fn prompt_arg_matches(d: JsonData, x: PromptArgument) -> bool {
    &&& req_str_is(member_of(d, "name"@), x.name)
    &&& opt_str_is(member_of(d, "description"@), x.description)
    &&& opt_obool_is(member_of(d, "required"@), x.required)
}

fn prompt_arg_from_json(v: &JsonValue) -> (r: Result<PromptArgument, ()>)
    ensures
        r is Ok <==> prompt_arg_shape(v@),
        r matches Ok(x) ==> prompt_arg_matches(v@, x),
{
    if v.as_object().is_none() {
        return Err(());
    }
    let name = match member_string(v, "name") {
        Some(s) => s,
        None => {
            return Err(());
        },
    };
    let description = match member_opt_string(v, "description") {
        Ok(o) => o,
        Err(_) => {
            return Err(());
        },
    };
    let required = match member_opt_bool(v, "required") {
        Ok(o) => o,
        Err(_) => {
            return Err(());
        },
    };
    Ok(PromptArgument { name, description, required })
}

pub struct Prompt {
    pub name: String,
    pub description: Option<String>,
    pub arguments: Option<Vec<PromptArgument>>,
}

pub open spec fn prompt_shape(d: JsonData) -> bool {
    &&& d is Obj
    &&& req_str_at(member_of(d, "name"@))
    &&& opt_str_at(member_of(d, "description"@))
    &&& match member_of(d, "arguments"@) {
        None => true,
        Some(a) => a is Null || (a matches JsonData::Arr { items } && forall|i: int|
            0 <= i < items.len() ==> prompt_arg_shape(#[trigger] items[i])),
    }
}

pub open spec fn prompt_matches(d: JsonData, x: Prompt) -> bool {
    &&& req_str_is(member_of(d, "name"@), x.name)
    &&& opt_str_is(member_of(d, "description"@), x.description)
    &&& match member_of(d, "arguments"@) {
        None => x.arguments is None,
        Some(a) => {
            if a is Null {
                x.arguments is None
            } else {
                a matches JsonData::Arr { items } && x.arguments matches Some(xs) && items.len()
                    == xs@.len() && forall|i: int|
                    0 <= i < items.len() ==> prompt_arg_matches(
                        #[trigger] items[i],
                        xs@[i],
                    )
            }
        },
    }
}

fn prompt_from_json(v: &JsonValue) -> (r: Result<Prompt, ()>)
    ensures
        r is Ok <==> prompt_shape(v@),
        r matches Ok(x) ==> prompt_matches(v@, x),
{
    if v.as_object().is_none() {
        return Err(());
    }
    let name = match member_string(v, "name") {
        Some(s) => s,
        None => {
            return Err(());
        },
    };
    let description = match member_opt_string(v, "description") {
        Ok(o) => o,
        Err(_) => {
            return Err(());
        },
    };
    let arguments: Option<Vec<PromptArgument>> = match v.get(&String::from_str("arguments")) {
        Some(a) => {
            if let JsonValue::Null = a {
                None
            } else {
                match a.as_array() {
                    Some(items) => {
                        let ghost gitems = data_of_list(items@);
                        let mut out: Vec<PromptArgument> = Vec::new();
                        let mut i: usize = 0;
                        proof {
                            lemma_data_of_list_len(items@);
                        }
                        while i < items.len()
                            invariant
                                0 <= i <= items@.len(),
                                gitems == data_of_list(items@),
                                gitems.len() == items@.len(),
                                a@ == (JsonData::Arr { items: gitems }),
                                v@ is Obj,
                                member_of(v@, "arguments"@) == Some(a@),
                                out@.len() == i,
                                forall|j: int|
                                    0 <= j < i ==> prompt_arg_shape(#[trigger] gitems[j])
                                        && prompt_arg_matches(gitems[j], out@[j]),
                            decreases items@.len() - i,
                        {
                            proof {
                                lemma_data_of_list_index(items@, i as int);
                            }
                            match prompt_arg_from_json(&items[i]) {
                                Ok(x) => {
                                    out.push(x);
                                },
                                Err(_) => {
                                    proof {
                                        assert(!prompt_arg_shape(gitems[i as int]));
                                        assert(a@->Arr_items == gitems);
                                    }
                                    return Err(());
                                },
                            }
                            i = i + 1;
                        }
                        proof {
                            assert(a@->Arr_items == gitems);
                        }
                        Some(out)
                    },
                    None => {
                        return Err(());
                    },
                }
            }
        },
        None => None,
    };
    Ok(Prompt { name, description, arguments })
}

pub struct ListPromptsResult {
    pub prompts: Vec<Prompt>,
}

pub open spec fn list_prompts_shape(d: JsonData) -> bool {
    &&& d is Obj
    &&& match member_of(d, "prompts"@) {
        Some(JsonData::Arr { items }) => forall|i: int|
            0 <= i < items.len() ==> prompt_shape(#[trigger] items[i]),
        _ => false,
    }
}

pub open spec fn list_prompts_matches(d: JsonData, x: ListPromptsResult) -> bool {
    match member_of(d, "prompts"@) {
        Some(JsonData::Arr { items }) => items.len() == x.prompts@.len() && forall|i: int|
            0 <= i < items.len() ==> prompt_matches(items[i], #[trigger] x.prompts@[i]),
        _ => false,
    }
}

/// Reads a prompts list; `Err` exactly when the shape is wrong.
pub fn list_prompts_from_json(v: &JsonValue) -> (r: Result<ListPromptsResult, ()>)
    ensures
        r is Ok <==> list_prompts_shape(v@),
        r matches Ok(x) ==> list_prompts_matches(v@, x),
{
    if v.as_object().is_none() {
        return Err(());
    }
    match v.get(&String::from_str("prompts")) {
        Some(x) => match x.as_array() {
            Some(items) => {
                let ghost gitems = data_of_list(items@);
                let mut out: Vec<Prompt> = Vec::new();
                let mut i: usize = 0;
                proof {
                    lemma_data_of_list_len(items@);
                }
                while i < items.len()
                    invariant
                        0 <= i <= items@.len(),
                        gitems == data_of_list(items@),
                        gitems.len() == items@.len(),
                        v@ is Obj,
                        member_of(v@, "prompts"@) == Some(JsonData::Arr { items: gitems }),
                        x@ == (JsonData::Arr { items: gitems }),
                        out@.len() == i,
                        forall|j: int|
                            0 <= j < i ==> prompt_shape(#[trigger] gitems[j]) && prompt_matches(
                                gitems[j],
                                out@[j],
                            ),
                    decreases items@.len() - i,
                {
                    proof {
                        lemma_data_of_list_index(items@, i as int);
                    }
                    match prompt_from_json(&items[i]) {
                        Ok(t) => {
                            out.push(t);
                        },
                        Err(_) => {
                            proof {
                                assert(!prompt_shape(gitems[i as int]));
                                assert(x@->Arr_items == gitems);
                            }
                            return Err(());
                        },
                    }
                    i = i + 1;
                }
                proof {
                    assert(x@->Arr_items == gitems);
                }
                Ok(ListPromptsResult { prompts: out })
            },
            None => Err(()),
        },
        None => Err(()),
    }
}

pub struct GetPromptParams {
    pub name: String,
    pub arguments: Option<Vec<(String, String)>>,
}

/// The views of string-to-string pairs as object fields.
pub open spec fn str_fields(v: Seq<(String, String)>) -> Seq<(Seq<char>, JsonData)> {
    Seq::new(v.len(), |i: int| (v[i].0@, JsonData::Str { text: v[i].1@ }))
}

pub open spec fn get_prompt_params_json(p: GetPromptParams) -> JsonData {
    let base = seq![("name"@, JsonData::Str { text: p.name@ })];
    JsonData::Obj {
        fields: match p.arguments {
            Some(args) => base + seq![("arguments"@, JsonData::Obj { fields: str_fields(args@) })],
            None => base,
        },
    }
}

impl GetPromptParams {
    /// This request's parameter object: the prompt's name, and the string
    /// arguments when any were given.
    pub fn to_json(&self) -> (r: JsonValue)
        ensures
            r@ == get_prompt_params_json(*self),
    {
        let mut fields: Vec<(String, JsonValue)> = Vec::new();
        fields.push((String::from_str("name"), JsonValue::Text(self.name.clone())));
        match &self.arguments {
            Some(args) => {
                let mut copy: Vec<(String, JsonValue)> = Vec::new();
                let mut i: usize = 0;
                while i < args.len()
                    invariant
                        0 <= i <= args@.len(),
                        copy@.len() == i,
                        forall|j: int|
                            0 <= j < i ==> (#[trigger] copy@[j]).0@ == args@[j].0@ && copy@[j].1@
                                == (JsonData::Str { text: args@[j].1@ }),
                    decreases args@.len() - i,
                {
                    copy.push((args[i].0.clone(), JsonValue::Text(args[i].1.clone())));
                    i = i + 1;
                }
                proof {
                    broadcast use lemma_data_of_fields_index;

                    lemma_data_of_fields_len(copy@);
                    assert(data_of_fields(copy@) =~= str_fields(args@));
                }
                fields.push((String::from_str("arguments"), JsonValue::Object(copy)));
            },
            None => {},
        }
        proof {
            broadcast use lemma_data_of_fields_index;

            lemma_data_of_fields_len(fields@);
            assert(data_of_fields(fields@) =~= get_prompt_params_json(*self)->Obj_fields);
        }
        JsonValue::Object(fields)
    }
}

pub enum PromptContent {
    Text { text: String },
    Image { data: String, mime_type: String },
    Resource { resource: ResourceContents },
}

pub open spec fn pc_shape(d: JsonData) -> bool {
    &&& d is Obj
    &&& match member_of(d, "type"@) {
        Some(JsonData::Str { text: t }) => {
            if t == "text"@ {
                req_str_at(member_of(d, "text"@))
            } else if t == "image"@ {
                req_str_at(member_of(d, "data"@)) && req_str_at(member_of(d, "mimeType"@))
            } else if t == "resource"@ {
                match member_of(d, "resource"@) {
                    Some(rc) => rc_shape(rc),
                    None => false,
                }
            } else {
                false
            }
        },
        _ => false,
    }
}

pub open spec fn pc_matches(d: JsonData, x: PromptContent) -> bool {
    match x {
        PromptContent::Text { text } => {
            &&& member_of(d, "type"@) == Some(JsonData::Str { text: "text"@ })
            &&& req_str_is(member_of(d, "text"@), text)
        },
        PromptContent::Image { data, mime_type } => {
            &&& member_of(d, "type"@) == Some(JsonData::Str { text: "image"@ })
            &&& req_str_is(member_of(d, "data"@), data)
            &&& req_str_is(member_of(d, "mimeType"@), mime_type)
        },
        PromptContent::Resource { resource } => {
            &&& member_of(d, "type"@) == Some(JsonData::Str { text: "resource"@ })
            &&& match member_of(d, "resource"@) {
                Some(rc) => rc_matches(rc, resource),
                None => false,
            }
        },
    }
}

fn pc_from_json(v: &JsonValue) -> (r: Result<PromptContent, ()>)
    ensures
        r is Ok <==> pc_shape(v@),
        r matches Ok(x) ==> pc_matches(v@, x),
{
    if v.as_object().is_none() {
        return Err(());
    }
    let tag = match member_string(v, "type") {
        Some(s) => s,
        None => {
            return Err(());
        },
    };
    proof {
        reveal_strlit("text");
        reveal_strlit("image");
        reveal_strlit("resource");
    }
    if tag == String::from_str("text") {
        let text = match member_string(v, "text") {
            Some(s) => s,
            None => {
                return Err(());
            },
        };
        return Ok(PromptContent::Text { text });
    }
    if tag == String::from_str("image") {
        let data = match member_string(v, "data") {
            Some(s) => s,
            None => {
                return Err(());
            },
        };
        let mime_type = match member_string(v, "mimeType") {
            Some(s) => s,
            None => {
                return Err(());
            },
        };
        return Ok(PromptContent::Image { data, mime_type });
    }
    if tag == String::from_str("resource") {
        let resource = match v.get(&String::from_str("resource")) {
            Some(rc) => match rc_from_json(rc) {
                Ok(x) => x,
                Err(_) => {
                    return Err(());
                },
            },
            None => {
                return Err(());
            },
        };
        return Ok(PromptContent::Resource { resource });
    }
    Err(())
}

/// One message's content: a single content object, or a list of them, as
/// the wire's untagged reading takes it — an object first, an array second.
pub enum PromptMessageContent {
    Single(PromptContent),
    Multiple(Vec<PromptContent>),
}

pub open spec fn pmc_shape(d: JsonData) -> bool {
    ||| pc_shape(d)
    ||| (d matches JsonData::Arr { items } && forall|i: int|
        0 <= i < items.len() ==> pc_shape(#[trigger] items[i]))
}

pub open spec fn pmc_matches(d: JsonData, x: PromptMessageContent) -> bool {
    if pc_shape(d) {
        x matches PromptMessageContent::Single(c) && pc_matches(d, c)
    } else {
        d matches JsonData::Arr { items } && x matches PromptMessageContent::Multiple(cs)
            && items.len() == cs@.len() && forall|i: int|
            0 <= i < items.len() ==> pc_matches(#[trigger] items[i], cs@[i])
    }
}

fn pmc_from_json(v: &JsonValue) -> (r: Result<PromptMessageContent, ()>)
    ensures
        r is Ok <==> pmc_shape(v@),
        r matches Ok(x) ==> pmc_matches(v@, x),
{
    match pc_from_json(v) {
        Ok(c) => Ok(PromptMessageContent::Single(c)),
        Err(_) => match v.as_array() {
            Some(items) => {
                let ghost gitems = data_of_list(items@);
                let mut out: Vec<PromptContent> = Vec::new();
                let mut i: usize = 0;
                proof {
                    lemma_data_of_list_len(items@);
                }
                while i < items.len()
                    invariant
                        0 <= i <= items@.len(),
                        gitems == data_of_list(items@),
                        gitems.len() == items@.len(),
                        v@ == (JsonData::Arr { items: gitems }),
                        !pc_shape(v@),
                        out@.len() == i,
                        forall|j: int|
                            0 <= j < i ==> pc_shape(#[trigger] gitems[j]) && pc_matches(
                                gitems[j],
                                out@[j],
                            ),
                    decreases items@.len() - i,
                {
                    proof {
                        lemma_data_of_list_index(items@, i as int);
                    }
                    match pc_from_json(&items[i]) {
                        Ok(c) => {
                            out.push(c);
                        },
                        Err(_) => {
                            proof {
                                assert(!pc_shape(gitems[i as int]));
                                assert(v@->Arr_items == gitems);
                            }
                            return Err(());
                        },
                    }
                    i = i + 1;
                }
                proof {
                    assert(v@->Arr_items == gitems);
                }
                Ok(PromptMessageContent::Multiple(out))
            },
            None => Err(()),
        },
    }
}

pub struct PromptMessage {
    pub role: String,
    pub content: PromptMessageContent,
}

pub open spec fn pm_shape(d: JsonData) -> bool {
    &&& d is Obj
    &&& req_str_at(member_of(d, "role"@))
    &&& match member_of(d, "content"@) {
        Some(c) => pmc_shape(c),
        None => false,
    }
}

pub open spec fn pm_matches(d: JsonData, x: PromptMessage) -> bool {
    &&& req_str_is(member_of(d, "role"@), x.role)
    &&& match member_of(d, "content"@) {
        Some(c) => pmc_matches(c, x.content),
        None => false,
    }
}

fn pm_from_json(v: &JsonValue) -> (r: Result<PromptMessage, ()>)
    ensures
        r is Ok <==> pm_shape(v@),
        r matches Ok(x) ==> pm_matches(v@, x),
{
    if v.as_object().is_none() {
        return Err(());
    }
    let role = match member_string(v, "role") {
        Some(s) => s,
        None => {
            return Err(());
        },
    };
    let content = match v.get(&String::from_str("content")) {
        Some(c) => match pmc_from_json(c) {
            Ok(x) => x,
            Err(_) => {
                return Err(());
            },
        },
        None => {
            return Err(());
        },
    };
    Ok(PromptMessage { role, content })
}

pub struct GetPromptResult {
    pub description: Option<String>,
    pub messages: Vec<PromptMessage>,
}

pub open spec fn get_prompt_result_shape(d: JsonData) -> bool {
    &&& d is Obj
    &&& opt_str_at(member_of(d, "description"@))
    &&& match member_of(d, "messages"@) {
        Some(JsonData::Arr { items }) => forall|i: int|
            0 <= i < items.len() ==> pm_shape(#[trigger] items[i]),
        _ => false,
    }
}

pub open spec fn get_prompt_result_matches(d: JsonData, x: GetPromptResult) -> bool {
    &&& opt_str_is(member_of(d, "description"@), x.description)
    &&& match member_of(d, "messages"@) {
        Some(JsonData::Arr { items }) => items.len() == x.messages@.len() && forall|i: int|
            0 <= i < items.len() ==> pm_matches(items[i], #[trigger] x.messages@[i]),
        _ => false,
    }
}

/// Reads a prompt result; `Err` exactly when the shape is wrong.
pub fn get_prompt_result_from_json(v: &JsonValue) -> (r: Result<GetPromptResult, ()>)
    ensures
        r is Ok <==> get_prompt_result_shape(v@),
        r matches Ok(x) ==> get_prompt_result_matches(v@, x),
{
    if v.as_object().is_none() {
        return Err(());
    }
    let description = match member_opt_string(v, "description") {
        Ok(o) => o,
        Err(_) => {
            return Err(());
        },
    };
    match v.get(&String::from_str("messages")) {
        Some(x) => match x.as_array() {
            Some(items) => {
                let ghost gitems = data_of_list(items@);
                let mut out: Vec<PromptMessage> = Vec::new();
                let mut i: usize = 0;
                proof {
                    lemma_data_of_list_len(items@);
                }
                while i < items.len()
                    invariant
                        0 <= i <= items@.len(),
                        gitems == data_of_list(items@),
                        gitems.len() == items@.len(),
                        v@ is Obj,
                        member_of(v@, "messages"@) == Some(JsonData::Arr { items: gitems }),
                        x@ == (JsonData::Arr { items: gitems }),
                        opt_str_is(member_of(v@, "description"@), description),
                        out@.len() == i,
                        forall|j: int|
                            0 <= j < i ==> pm_shape(#[trigger] gitems[j]) && pm_matches(
                                gitems[j],
                                out@[j],
                            ),
                    decreases items@.len() - i,
                {
                    proof {
                        lemma_data_of_list_index(items@, i as int);
                    }
                    match pm_from_json(&items[i]) {
                        Ok(t) => {
                            out.push(t);
                        },
                        Err(_) => {
                            proof {
                                assert(!pm_shape(gitems[i as int]));
                                assert(x@->Arr_items == gitems);
                            }
                            return Err(());
                        },
                    }
                    i = i + 1;
                }
                proof {
                    assert(x@->Arr_items == gitems);
                }
                Ok(GetPromptResult { description, messages: out })
            },
            None => Err(()),
        },
        None => Err(()),
    }
}

// --- resources ---------------------------------------------------------------

pub struct Resource {
    pub uri: String,
    pub name: String,
    pub description: Option<String>,
    pub mime_type: Option<String>,
}

pub open spec fn resource_shape(d: JsonData) -> bool {
    &&& d is Obj
    &&& req_str_at(member_of(d, "uri"@))
    &&& req_str_at(member_of(d, "name"@))
    &&& opt_str_at(member_of(d, "description"@))
    &&& opt_str_at(member_of(d, "mimeType"@))
}

pub open spec fn resource_matches(d: JsonData, x: Resource) -> bool {
    &&& req_str_is(member_of(d, "uri"@), x.uri)
    &&& req_str_is(member_of(d, "name"@), x.name)
    &&& opt_str_is(member_of(d, "description"@), x.description)
    &&& opt_str_is(member_of(d, "mimeType"@), x.mime_type)
}

fn resource_from_json(v: &JsonValue) -> (r: Result<Resource, ()>)
    ensures
        r is Ok <==> resource_shape(v@),
        r matches Ok(x) ==> resource_matches(v@, x),
{
    if v.as_object().is_none() {
        return Err(());
    }
    let uri = match member_string(v, "uri") {
        Some(s) => s,
        None => {
            return Err(());
        },
    };
    let name = match member_string(v, "name") {
        Some(s) => s,
        None => {
            return Err(());
        },
    };
    let description = match member_opt_string(v, "description") {
        Ok(o) => o,
        Err(_) => {
            return Err(());
        },
    };
    let mime_type = match member_opt_string(v, "mimeType") {
        Ok(o) => o,
        Err(_) => {
            return Err(());
        },
    };
    Ok(Resource { uri, name, description, mime_type })
}

pub struct ListResourcesResult {
    pub resources: Vec<Resource>,
}

pub open spec fn list_resources_shape(d: JsonData) -> bool {
    &&& d is Obj
    &&& match member_of(d, "resources"@) {
        Some(JsonData::Arr { items }) => forall|i: int|
            0 <= i < items.len() ==> resource_shape(#[trigger] items[i]),
        _ => false,
    }
}

pub open spec fn list_resources_matches(d: JsonData, x: ListResourcesResult) -> bool {
    match member_of(d, "resources"@) {
        Some(JsonData::Arr { items }) => items.len() == x.resources@.len() && forall|i: int|
            0 <= i < items.len() ==> resource_matches(items[i], #[trigger] x.resources@[i]),
        _ => false,
    }
}

/// Reads a resources list; `Err` exactly when the shape is wrong.
pub fn list_resources_from_json(v: &JsonValue) -> (r: Result<ListResourcesResult, ()>)
    ensures
        r is Ok <==> list_resources_shape(v@),
        r matches Ok(x) ==> list_resources_matches(v@, x),
{
    if v.as_object().is_none() {
        return Err(());
    }
    match v.get(&String::from_str("resources")) {
        Some(x) => match x.as_array() {
            Some(items) => {
                let ghost gitems = data_of_list(items@);
                let mut out: Vec<Resource> = Vec::new();
                let mut i: usize = 0;
                proof {
                    lemma_data_of_list_len(items@);
                }
                while i < items.len()
                    invariant
                        0 <= i <= items@.len(),
                        gitems == data_of_list(items@),
                        gitems.len() == items@.len(),
                        v@ is Obj,
                        member_of(v@, "resources"@) == Some(JsonData::Arr { items: gitems }),
                        x@ == (JsonData::Arr { items: gitems }),
                        out@.len() == i,
                        forall|j: int|
                            0 <= j < i ==> resource_shape(#[trigger] gitems[j]) && resource_matches(
                                gitems[j],
                                out@[j],
                            ),
                    decreases items@.len() - i,
                {
                    proof {
                        lemma_data_of_list_index(items@, i as int);
                    }
                    match resource_from_json(&items[i]) {
                        Ok(t) => {
                            out.push(t);
                        },
                        Err(_) => {
                            proof {
                                assert(!resource_shape(gitems[i as int]));
                                assert(x@->Arr_items == gitems);
                            }
                            return Err(());
                        },
                    }
                    i = i + 1;
                }
                proof {
                    assert(x@->Arr_items == gitems);
                }
                Ok(ListResourcesResult { resources: out })
            },
            None => Err(()),
        },
        None => Err(()),
    }
}

pub struct ReadResourceParams {
    pub uri: String,
}

pub open spec fn read_params_json(p: ReadResourceParams) -> JsonData {
    JsonData::Obj { fields: seq![("uri"@, JsonData::Str { text: p.uri@ })] }
}

impl ReadResourceParams {
    /// This request's parameter object: the resource's URI.
    pub fn to_json(&self) -> (r: JsonValue)
        ensures
            r@ == read_params_json(*self),
    {
        let mut fields: Vec<(String, JsonValue)> = Vec::new();
        fields.push((String::from_str("uri"), JsonValue::Text(self.uri.clone())));
        proof {
            broadcast use lemma_data_of_fields_index;

            lemma_data_of_fields_len(fields@);
            assert(data_of_fields(fields@) =~= read_params_json(*self)->Obj_fields);
        }
        JsonValue::Object(fields)
    }
}

pub struct ReadResourceResult {
    pub contents: Vec<ResourceContents>,
}

pub open spec fn read_result_shape(d: JsonData) -> bool {
    &&& d is Obj
    &&& match member_of(d, "contents"@) {
        Some(JsonData::Arr { items }) => forall|i: int|
            0 <= i < items.len() ==> rc_shape(#[trigger] items[i]),
        _ => false,
    }
}

pub open spec fn read_result_matches(d: JsonData, x: ReadResourceResult) -> bool {
    match member_of(d, "contents"@) {
        Some(JsonData::Arr { items }) => items.len() == x.contents@.len() && forall|i: int|
            0 <= i < items.len() ==> rc_matches(items[i], #[trigger] x.contents@[i]),
        _ => false,
    }
}

/// Reads a resource-read result; `Err` exactly when the shape is wrong.
pub fn read_result_from_json(v: &JsonValue) -> (r: Result<ReadResourceResult, ()>)
    ensures
        r is Ok <==> read_result_shape(v@),
        r matches Ok(x) ==> read_result_matches(v@, x),
{
    if v.as_object().is_none() {
        return Err(());
    }
    match v.get(&String::from_str("contents")) {
        Some(x) => match x.as_array() {
            Some(items) => {
                let ghost gitems = data_of_list(items@);
                let mut out: Vec<ResourceContents> = Vec::new();
                let mut i: usize = 0;
                proof {
                    lemma_data_of_list_len(items@);
                }
                while i < items.len()
                    invariant
                        0 <= i <= items@.len(),
                        gitems == data_of_list(items@),
                        gitems.len() == items@.len(),
                        v@ is Obj,
                        member_of(v@, "contents"@) == Some(JsonData::Arr { items: gitems }),
                        x@ == (JsonData::Arr { items: gitems }),
                        out@.len() == i,
                        forall|j: int|
                            0 <= j < i ==> rc_shape(#[trigger] gitems[j]) && rc_matches(
                                gitems[j],
                                out@[j],
                            ),
                    decreases items@.len() - i,
                {
                    proof {
                        lemma_data_of_list_index(items@, i as int);
                    }
                    match rc_from_json(&items[i]) {
                        Ok(t) => {
                            out.push(t);
                        },
                        Err(_) => {
                            proof {
                                assert(!rc_shape(gitems[i as int]));
                                assert(x@->Arr_items == gitems);
                            }
                            return Err(());
                        },
                    }
                    i = i + 1;
                }
                proof {
                    assert(x@->Arr_items == gitems);
                }
                Ok(ReadResourceResult { contents: out })
            },
            None => Err(()),
        },
        None => Err(()),
    }
}

} // verus!
