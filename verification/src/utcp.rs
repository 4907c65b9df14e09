//! The declarative backend's manifest: its document model and its strict
//! loader.
//!
//! A manifest is a JSON document with version fields, an info block, an
//! optional variable map, and an ordered list of tool definitions, each
//! carrying the call template that says how to invoke it.  Loading is
//! strict: a document that is not JSON, or misses a required field, or
//! holds a field of the wrong kind, is rejected whole at load time — never
//! at first call.

use vstd::prelude::*;
use crate::json::{JsonValue, JsonData, member_of, data_of_fields, data_of_list, req_str_at,
    req_str_is, opt_str_at, opt_str_is, opt_bool_at, opt_bool_is, member_string,
    member_opt_string, str_map_at, str_map_is, str_list_at, str_list_is, req_str_list_at};

verus! {

broadcast use vstd::std_specs::vec::group_vec_axioms, vstd::seq::group_seq_axioms;

/// The loaded manifest.
pub struct UtcpManual {
    pub manual_version: String,
    pub utcp_version: String,
    pub info: ManualInfo,
    pub variables: Vec<(String, String)>,
    pub tools: Vec<UtcpTool>,
}

pub struct ManualInfo {
    pub title: String,
    pub version: String,
    pub description: Option<String>,
}

pub struct UtcpTool {
    pub name: String,
    pub description: Option<String>,
    pub inputs: JsonValue,
    pub outputs: JsonValue,
    pub tags: Vec<String>,
    pub tool_call_template: CallTemplate,
}

pub enum CallTemplate {
    Http(HttpTemplate),
    Cli(CliTemplate),
}

pub struct HttpTemplate {
    pub url: String,
    pub http_method: HttpMethod,
    pub auth: Option<AuthConfig>,
    pub body_field: Option<String>,
    pub headers: Vec<(String, String)>,
}

pub enum HttpMethod {
    Get,
    Post,
    Put,
    Delete,
    Patch,
}

pub enum AuthConfig {
    ApiKey { api_key: String, header_name: Option<String>, query_param_name: Option<String> },
    Bearer { token: String },
    Basic { username: String, password: String },
}

pub struct CliTemplate {
    pub commands: Vec<String>,
    pub append_to_final_output: bool,
}

/// The manifest could not be used: not JSON, or not the manifest shape.
#[derive(Debug)]
pub enum ManifestError {
    Malformed,
}

// --- per-type shapes ----------------------------------------------------

pub open spec fn info_shape(d: JsonData) -> bool {
    &&& d is Obj
    &&& req_str_at(member_of(d, "title"@))
    &&& req_str_at(member_of(d, "version"@))
    &&& opt_str_at(member_of(d, "description"@))
}

pub open spec fn info_matches(d: JsonData, x: ManualInfo) -> bool {
    &&& req_str_is(member_of(d, "title"@), x.title)
    &&& req_str_is(member_of(d, "version"@), x.version)
    &&& opt_str_is(member_of(d, "description"@), x.description)
}

pub open spec fn method_name(m: HttpMethod) -> Seq<char> {
    match m {
        HttpMethod::Get => "GET"@,
        HttpMethod::Post => "POST"@,
        HttpMethod::Put => "PUT"@,
        HttpMethod::Delete => "DELETE"@,
        HttpMethod::Patch => "PATCH"@,
    }
}

pub open spec fn method_shape(m: Option<JsonData>) -> bool {
    ||| m == Some(JsonData::Str { text: "GET"@ })
    ||| m == Some(JsonData::Str { text: "POST"@ })
    ||| m == Some(JsonData::Str { text: "PUT"@ })
    ||| m == Some(JsonData::Str { text: "DELETE"@ })
    ||| m == Some(JsonData::Str { text: "PATCH"@ })
}

pub open spec fn auth_shape(d: JsonData) -> bool {
    &&& d is Obj
    &&& match member_of(d, "auth_type"@) {
        Some(JsonData::Str { text: t }) => {
            if t == "api_key"@ {
                &&& req_str_at(member_of(d, "api_key"@))
                &&& opt_str_at(member_of(d, "header_name"@))
                &&& opt_str_at(member_of(d, "query_param_name"@))
            } else if t == "bearer"@ {
                req_str_at(member_of(d, "token"@))
            } else if t == "basic"@ {
                &&& req_str_at(member_of(d, "username"@))
                &&& req_str_at(member_of(d, "password"@))
            } else {
                false
            }
        },
        _ => false,
    }
}

pub open spec fn auth_matches(d: JsonData, a: AuthConfig) -> bool {
    match a {
        AuthConfig::ApiKey { api_key, header_name, query_param_name } => {
            &&& member_of(d, "auth_type"@) == Some(JsonData::Str { text: "api_key"@ })
            &&& req_str_is(member_of(d, "api_key"@), api_key)
            &&& opt_str_is(member_of(d, "header_name"@), header_name)
            &&& opt_str_is(member_of(d, "query_param_name"@), query_param_name)
        },
        AuthConfig::Bearer { token } => {
            &&& member_of(d, "auth_type"@) == Some(JsonData::Str { text: "bearer"@ })
            &&& req_str_is(member_of(d, "token"@), token)
        },
        AuthConfig::Basic { username, password } => {
            &&& member_of(d, "auth_type"@) == Some(JsonData::Str { text: "basic"@ })
            &&& req_str_is(member_of(d, "username"@), username)
            &&& req_str_is(member_of(d, "password"@), password)
        },
    }
}

pub open spec fn http_template_shape(d: JsonData) -> bool {
    &&& d is Obj
    &&& req_str_at(member_of(d, "url"@))
    &&& method_shape(member_of(d, "http_method"@))
    &&& match member_of(d, "auth"@) {
        None => true,
        Some(a) => a is Null || auth_shape(a),
    }
    &&& opt_str_at(member_of(d, "body_field"@))
    &&& str_map_at(member_of(d, "headers"@))
}

pub open spec fn http_template_matches(d: JsonData, t: HttpTemplate) -> bool {
    &&& req_str_is(member_of(d, "url"@), t.url)
    &&& member_of(d, "http_method"@) == Some(JsonData::Str { text: method_name(t.http_method) })
    &&& match member_of(d, "auth"@) {
        None => t.auth is None,
        Some(a) => {
            if a is Null {
                t.auth is None
            } else {
                t.auth matches Some(x) && auth_matches(a, x)
            }
        },
    }
    &&& opt_str_is(member_of(d, "body_field"@), t.body_field)
    &&& str_map_is(member_of(d, "headers"@), t.headers@)
}

pub open spec fn cli_template_shape(d: JsonData) -> bool {
    &&& d is Obj
    &&& req_str_list_at(member_of(d, "commands"@))
    &&& opt_bool_at(member_of(d, "append_to_final_output"@))
}

pub open spec fn cli_template_matches(d: JsonData, t: CliTemplate) -> bool {
    &&& str_list_is(member_of(d, "commands"@), t.commands@) && member_of(d, "commands"@) is Some
    &&& opt_bool_is(member_of(d, "append_to_final_output"@), t.append_to_final_output)
}

pub open spec fn call_template_shape(d: JsonData) -> bool {
    &&& d is Obj
    &&& match member_of(d, "call_template_type"@) {
        Some(JsonData::Str { text: t }) => {
            if t == "http"@ {
                http_template_shape(d)
            } else if t == "cli"@ {
                cli_template_shape(d)
            } else {
                false
            }
        },
        _ => false,
    }
}

pub open spec fn call_template_matches(d: JsonData, c: CallTemplate) -> bool {
    match c {
        CallTemplate::Http(t) => {
            &&& member_of(d, "call_template_type"@) == Some(JsonData::Str { text: "http"@ })
            &&& http_template_matches(d, t)
        },
        CallTemplate::Cli(t) => {
            &&& member_of(d, "call_template_type"@) == Some(JsonData::Str { text: "cli"@ })
            &&& cli_template_matches(d, t)
        },
    }
}

pub open spec fn tool_shape(d: JsonData) -> bool {
    &&& d is Obj
    &&& req_str_at(member_of(d, "name"@))
    &&& opt_str_at(member_of(d, "description"@))
    &&& member_of(d, "inputs"@) is Some
    &&& member_of(d, "outputs"@) is Some
    &&& str_list_at(member_of(d, "tags"@))
    &&& match member_of(d, "tool_call_template"@) {
        Some(t) => call_template_shape(t),
        None => false,
    }
}

pub open spec fn tool_matches(d: JsonData, x: UtcpTool) -> bool {
    &&& req_str_is(member_of(d, "name"@), x.name)
    &&& opt_str_is(member_of(d, "description"@), x.description)
    &&& member_of(d, "inputs"@) == Some(x.inputs@)
    &&& member_of(d, "outputs"@) == Some(x.outputs@)
    &&& str_list_is(member_of(d, "tags"@), x.tags@)
    &&& match member_of(d, "tool_call_template"@) {
        Some(t) => call_template_matches(t, x.tool_call_template),
        None => false,
    }
}

pub open spec fn manual_shape(d: JsonData) -> bool {
    &&& d is Obj
    &&& req_str_at(member_of(d, "manual_version"@))
    &&& req_str_at(member_of(d, "utcp_version"@))
    &&& match member_of(d, "info"@) {
        Some(i) => info_shape(i),
        None => false,
    }
    &&& str_map_at(member_of(d, "variables"@))
    &&& match member_of(d, "tools"@) {
        Some(JsonData::Arr { items }) => forall|i: int|
            0 <= i < items.len() ==> tool_shape(#[trigger] items[i]),
        _ => false,
    }
}

pub open spec fn manual_matches(d: JsonData, m: UtcpManual) -> bool {
    &&& req_str_is(member_of(d, "manual_version"@), m.manual_version)
    &&& req_str_is(member_of(d, "utcp_version"@), m.utcp_version)
    &&& match member_of(d, "info"@) {
        Some(i) => info_matches(i, m.info),
        None => false,
    }
    &&& str_map_is(member_of(d, "variables"@), m.variables@)
    &&& match member_of(d, "tools"@) {
        Some(JsonData::Arr { items }) => items.len() == m.tools@.len() && forall|i: int|
            0 <= i < items.len() ==> tool_matches(items[i], #[trigger] m.tools@[i]),
        _ => false,
    }
}

// --- the loader ---------------------------------------------------------

fn member_str_map(v: &JsonValue, key: &str) -> (r: Result<Vec<(String, String)>, ManifestError>)
    ensures
        match r {
            Ok(out) => str_map_is(member_of(v@, key@), out@),
            Err(_) => !str_map_at(member_of(v@, key@)),
        },
{
    match v.get(&String::from_str(key)) {
        Some(x) => match x.as_object() {
            Some(fields) => {
                let ghost gfields = data_of_fields(fields@);
                let mut out: Vec<(String, String)> = Vec::new();
                let mut i: usize = 0;
                proof {
                    crate::json::lemma_data_of_fields_len(fields@);
                }
                while i < fields.len()
                    invariant
                        0 <= i <= fields@.len(),
                        gfields == data_of_fields(fields@),
                        gfields.len() == fields@.len(),
                        member_of(v@, key@) == Some(JsonData::Obj { fields: gfields }),
                        out@.len() == i,
                        forall|j: int|
                            0 <= j < i ==> gfields[j] == ((#[trigger] out@[j]).0@, JsonData::Str {
                                text: out@[j].1@,
                            }),
                    decreases fields@.len() - i,
                {
                    proof {
                        crate::json::lemma_data_of_fields_index(fields@, i as int);
                    }
                    match &fields[i].1 {
                        JsonValue::Text(s) => {
                            out.push((fields[i].0.clone(), s.clone()));
                        },
                        _ => {
                            return Err(ManifestError::Malformed);
                        },
                    }
                    i = i + 1;
                }
                Ok(out)
            },
            None => Err(ManifestError::Malformed),
        },
        None => Ok(Vec::new()),
    }
}

fn member_str_list(v: &JsonValue, key: &str, required: bool) -> (r: Result<
    Vec<String>,
    ManifestError,
>)
    ensures
        match r {
            Ok(out) => {
                &&& str_list_is(member_of(v@, key@), out@)
                &&& required ==> member_of(v@, key@) is Some
            },
            Err(_) => {
                ||| !str_list_at(member_of(v@, key@))
                ||| required && member_of(v@, key@) is None
            },
        },
{
    match v.get(&String::from_str(key)) {
        Some(x) => match x.as_array() {
            Some(items) => {
                let ghost gitems = data_of_list(items@);
                let mut out: Vec<String> = Vec::new();
                let mut i: usize = 0;
                proof {
                    crate::json::lemma_data_of_list_len(items@);
                }
                while i < items.len()
                    invariant
                        0 <= i <= items@.len(),
                        gitems == data_of_list(items@),
                        gitems.len() == items@.len(),
                        member_of(v@, key@) == Some(JsonData::Arr { items: gitems }),
                        out@.len() == i,
                        forall|j: int|
                            0 <= j < i ==> gitems[j] == (JsonData::Str {
                                text: (#[trigger] out@[j])@,
                            }),
                    decreases items@.len() - i,
                {
                    proof {
                        crate::json::lemma_data_of_list_index(items@, i as int);
                    }
                    match &items[i] {
                        JsonValue::Text(s) => {
                            out.push(s.clone());
                        },
                        _ => {
                            return Err(ManifestError::Malformed);
                        },
                    }
                    i = i + 1;
                }
                Ok(out)
            },
            None => Err(ManifestError::Malformed),
        },
        None => {
            if required {
                Err(ManifestError::Malformed)
            } else {
                Ok(Vec::new())
            }
        },
    }
}

fn info_from_json(v: &JsonValue) -> (r: Result<ManualInfo, ManifestError>)
    ensures
        r is Ok <==> info_shape(v@),
        r matches Ok(x) ==> info_matches(v@, x),
{
    if v.as_object().is_none() {
        return Err(ManifestError::Malformed);
    }
    let title = match member_string(v, "title") {
        Some(s) => s,
        None => {
            return Err(ManifestError::Malformed);
        },
    };
    let version = match member_string(v, "version") {
        Some(s) => s,
        None => {
            return Err(ManifestError::Malformed);
        },
    };
    let description = match member_opt_string(v, "description") {
        Ok(o) => o,
        Err(_) => {
            return Err(ManifestError::Malformed);
        },
    };
    Ok(ManualInfo { title, version, description })
}

fn method_from_json(v: &JsonValue) -> (r: Result<HttpMethod, ManifestError>)
    ensures
        r is Ok <==> method_shape(member_of(v@, "http_method"@)),
        r matches Ok(m) ==> member_of(v@, "http_method"@) == Some(JsonData::Str {
            text: method_name(m),
        }),
{
    let s = match member_string(v, "http_method") {
        Some(s) => s,
        None => {
            return Err(ManifestError::Malformed);
        },
    };
    if s == String::from_str("GET") {
        return Ok(HttpMethod::Get);
    }
    if s == String::from_str("POST") {
        return Ok(HttpMethod::Post);
    }
    if s == String::from_str("PUT") {
        return Ok(HttpMethod::Put);
    }
    if s == String::from_str("DELETE") {
        return Ok(HttpMethod::Delete);
    }
    if s == String::from_str("PATCH") {
        return Ok(HttpMethod::Patch);
    }
    Err(ManifestError::Malformed)
}

fn auth_from_json(v: &JsonValue) -> (r: Result<AuthConfig, ManifestError>)
    ensures
        r is Ok <==> auth_shape(v@),
        r matches Ok(a) ==> auth_matches(v@, a),
{
    if v.as_object().is_none() {
        return Err(ManifestError::Malformed);
    }
    let t = match member_string(v, "auth_type") {
        Some(s) => s,
        None => {
            return Err(ManifestError::Malformed);
        },
    };
    if t == String::from_str("api_key") {
        let api_key = match member_string(v, "api_key") {
            Some(s) => s,
            None => {
                return Err(ManifestError::Malformed);
            },
        };
        let header_name = match member_opt_string(v, "header_name") {
            Ok(o) => o,
            Err(_) => {
                return Err(ManifestError::Malformed);
            },
        };
        let query_param_name = match member_opt_string(v, "query_param_name") {
            Ok(o) => o,
            Err(_) => {
                return Err(ManifestError::Malformed);
            },
        };
        proof {
            reveal_strlit("api_key");
            reveal_strlit("bearer");
            reveal_strlit("basic");
        }
        return Ok(AuthConfig::ApiKey { api_key, header_name, query_param_name });
    }
    if t == String::from_str("bearer") {
        let token = match member_string(v, "token") {
            Some(s) => s,
            None => {
                return Err(ManifestError::Malformed);
            },
        };
        proof {
            reveal_strlit("api_key");
            reveal_strlit("bearer");
            reveal_strlit("basic");
        }
        return Ok(AuthConfig::Bearer { token });
    }
    if t == String::from_str("basic") {
        let username = match member_string(v, "username") {
            Some(s) => s,
            None => {
                return Err(ManifestError::Malformed);
            },
        };
        let password = match member_string(v, "password") {
            Some(s) => s,
            None => {
                return Err(ManifestError::Malformed);
            },
        };
        proof {
            reveal_strlit("api_key");
            reveal_strlit("bearer");
            reveal_strlit("basic");
        }
        return Ok(AuthConfig::Basic { username, password });
    }
    Err(ManifestError::Malformed)
}

fn call_template_from_json(v: &JsonValue) -> (r: Result<CallTemplate, ManifestError>)
    ensures
        r is Ok <==> call_template_shape(v@),
        r matches Ok(c) ==> call_template_matches(v@, c),
{
    if v.as_object().is_none() {
        return Err(ManifestError::Malformed);
    }
    let t = match member_string(v, "call_template_type") {
        Some(s) => s,
        None => {
            return Err(ManifestError::Malformed);
        },
    };
    proof {
        reveal_strlit("http");
        reveal_strlit("cli");
    }
    if t == String::from_str("http") {
        let url = match member_string(v, "url") {
            Some(s) => s,
            None => {
                return Err(ManifestError::Malformed);
            },
        };
        let http_method = match method_from_json(v) {
            Ok(m) => m,
            Err(e) => {
                return Err(e);
            },
        };
        let auth: Option<AuthConfig> = match v.get(&String::from_str("auth")) {
            Some(a) => {
                if let JsonValue::Null = a {
                    None
                } else {
                    match auth_from_json(a) {
                        Ok(x) => Some(x),
                        Err(e) => {
                            return Err(e);
                        },
                    }
                }
            },
            None => None,
        };
        let body_field = match member_opt_string(v, "body_field") {
            Ok(o) => o,
            Err(_) => {
                return Err(ManifestError::Malformed);
            },
        };
        let headers = match member_str_map(v, "headers") {
            Ok(h) => h,
            Err(e) => {
                return Err(e);
            },
        };
        return Ok(
            CallTemplate::Http(HttpTemplate { url, http_method, auth, body_field, headers }),
        );
    }
    if t == String::from_str("cli") {
        let commands = match member_str_list(v, "commands", true) {
            Ok(c) => c,
            Err(e) => {
                return Err(e);
            },
        };
        let append_to_final_output: bool = match v.get(
            &String::from_str("append_to_final_output"),
        ) {
            Some(b) => match b.as_bool() {
                Some(x) => x,
                None => {
                    return Err(ManifestError::Malformed);
                },
            },
            None => false,
        };
        return Ok(CallTemplate::Cli(CliTemplate { commands, append_to_final_output }));
    }
    Err(ManifestError::Malformed)
}

fn tool_from_json(v: &JsonValue) -> (r: Result<UtcpTool, ManifestError>)
    ensures
        r is Ok <==> tool_shape(v@),
        r matches Ok(x) ==> tool_matches(v@, x),
{
    if v.as_object().is_none() {
        return Err(ManifestError::Malformed);
    }
    let name = match member_string(v, "name") {
        Some(s) => s,
        None => {
            return Err(ManifestError::Malformed);
        },
    };
    let description = match member_opt_string(v, "description") {
        Ok(o) => o,
        Err(_) => {
            return Err(ManifestError::Malformed);
        },
    };
    let inputs = match v.get(&String::from_str("inputs")) {
        Some(x) => x.duplicate(),
        None => {
            return Err(ManifestError::Malformed);
        },
    };
    let outputs = match v.get(&String::from_str("outputs")) {
        Some(x) => x.duplicate(),
        None => {
            return Err(ManifestError::Malformed);
        },
    };
    let tags = match member_str_list(v, "tags", false) {
        Ok(t) => t,
        Err(e) => {
            return Err(e);
        },
    };
    let tool_call_template = match v.get(&String::from_str("tool_call_template")) {
        Some(t) => match call_template_from_json(t) {
            Ok(c) => c,
            Err(e) => {
                return Err(e);
            },
        },
        None => {
            return Err(ManifestError::Malformed);
        },
    };
    Ok(UtcpTool { name, description, inputs, outputs, tags, tool_call_template })
}

/// Reads the `tools` array; `Err` exactly when some entry is not a
/// well-formed tool.
fn tool_list_from_json(x: &JsonValue) -> (r: Result<Vec<UtcpTool>, ManifestError>)
    ensures
        match r {
            Ok(out) => x@ matches JsonData::Arr { items } && items.len() == out@.len()
                && forall|j: int|
                0 <= j < items.len() ==> tool_shape(#[trigger] items[j]) && tool_matches(
                    items[j],
                    out@[j],
                ),
            Err(_) => match x@ {
                JsonData::Arr { items } => exists|j: int|
                    0 <= j < items.len() && !tool_shape(#[trigger] items[j]),
                _ => !(x@ is Arr),
            },
        },
{
    match x.as_array() {
        Some(items) => {
            let ghost gitems = data_of_list(items@);
            let mut out: Vec<UtcpTool> = Vec::new();
            let mut i: usize = 0;
            proof {
                crate::json::lemma_data_of_list_len(items@);
            }
            while i < items.len()
                invariant
                    0 <= i <= items@.len(),
                    gitems == data_of_list(items@),
                    gitems.len() == items@.len(),
                    x@ == (JsonData::Arr { items: gitems }),
                    out@.len() == i,
                    forall|j: int|
                        0 <= j < i ==> tool_shape(#[trigger] gitems[j]) && tool_matches(
                            gitems[j],
                            out@[j],
                        ),
                decreases items@.len() - i,
            {
                proof {
                    crate::json::lemma_data_of_list_index(items@, i as int);
                }
                match tool_from_json(&items[i]) {
                    Ok(t) => {
                        out.push(t);
                    },
                    Err(e) => {
                        proof {
                            assert(!tool_shape(gitems[i as int]));
                            assert(x@->Arr_items == gitems);
                            assert(exists|j: int|
                                0 <= j < gitems.len() && !tool_shape(#[trigger] gitems[j]));
                            assert(match x@ {
                                JsonData::Arr { items: its } => exists|j: int|
                                    0 <= j < its.len() && !tool_shape(#[trigger] its[j]),
                                _ => !(x@ is Arr),
                            });
                        }
                        return Err(e);
                    },
                }
                i = i + 1;
            }
            Ok(out)
        },
        None => Err(ManifestError::Malformed),
    }
}

fn manual_from_json(v: &JsonValue) -> (r: Result<UtcpManual, ManifestError>)
    ensures
        r is Ok <==> manual_shape(v@),
        r matches Ok(m) ==> manual_matches(v@, m),
{
    if v.as_object().is_none() {
        return Err(ManifestError::Malformed);
    }
    let manual_version = match member_string(v, "manual_version") {
        Some(s) => s,
        None => {
            return Err(ManifestError::Malformed);
        },
    };
    let utcp_version = match member_string(v, "utcp_version") {
        Some(s) => s,
        None => {
            return Err(ManifestError::Malformed);
        },
    };
    let info = match v.get(&String::from_str("info")) {
        Some(i) => match info_from_json(i) {
            Ok(x) => x,
            Err(e) => {
                return Err(e);
            },
        },
        None => {
            return Err(ManifestError::Malformed);
        },
    };
    let variables = match member_str_map(v, "variables") {
        Ok(m) => m,
        Err(e) => {
            return Err(e);
        },
    };
    let tools: Vec<UtcpTool> = match v.get(&String::from_str("tools")) {
        Some(x) => match tool_list_from_json(x) {
            Ok(ts) => ts,
            Err(e) => {
                return Err(e);
            },
        },
        None => {
            return Err(ManifestError::Malformed);
        },
    };
    Ok(UtcpManual { manual_version, utcp_version, info, variables, tools })
}

/// Loads a manifest from its document text.  Succeeds exactly when the text
/// parses as JSON of the manifest shape; any malformed or incomplete
/// document is rejected here, at load time.
pub fn load_manual(text: &str) -> (r: Result<UtcpManual, ManifestError>)
    ensures
        match r {
            Ok(m) => crate::json::json_parse(text@) matches Some(d) && manual_shape(d)
                && manual_matches(d, m),
            Err(_) => match crate::json::json_parse(text@) {
                Some(d) => !manual_shape(d),
                None => true,
            },
        },
{
    match crate::json::parse_json(text) {
        Some(doc) => manual_from_json(&doc),
        None => Err(ManifestError::Malformed),
    }
}

// --- the declarative client ----------------------------------------------

use crate::protocol::{ProtocolTool, ProtocolPrompt, ProtocolResource, PromptResult,
    ResourceReadResult, ServerInfo, ToolCallResult};
use crate::template::TemplateProcessor;
use crate::executor::{HttpPlan, CliRun, CliPlan, build_http_plan, build_cli_plan, http_plan_ok,
    http_plan_matches, cli_plan_matches};
use crate::protocol::ContentItem;

/// Why a declarative call failed.
#[derive(Debug)]
pub enum UtcpError {
    /// No tool of that name stands in the manifest.
    UnknownTool { name: String },
    /// A `${NAME}` in the tool's templates has no value anywhere.
    MissingVariable { missing: String },
    /// Prompts and resources are not supported by this backend, by design.
    Unsupported,
}

/// The concrete invocation a tool call resolved to: the caller carries it
/// out and hands the capture back.
pub enum ToolInvocation {
    Http(HttpPlan),
    Cli(CliRun),
}

/// The first tool named `name`, if any.
pub open spec fn tool_named(tools: Seq<UtcpTool>, name: Seq<char>) -> Option<UtcpTool>
    decreases tools.len(),
{
    if tools.len() == 0 {
        None
    } else if tools[0].name@ == name {
        Some(tools[0])
    } else {
        tool_named(tools.drop_first(), name)
    }
}

///`s` lists exactly the manifest's tools as descriptors, in order.
pub open spec fn descriptors_match(tools: Seq<UtcpTool>, s: Seq<ProtocolTool>) -> bool {
    &&& s.len() == tools.len()
    &&& forall|i: int|
        0 <= i < tools.len() ==> {
            &&& (#[trigger] s[i]).name@ == tools[i].name@
            &&& match (s[i].description, tools[i].description) {
                (Some(a), Some(b)) => a@ == b@,
                (None, None) => true,
                _ => false,
            }
            &&& s[i].input_schema@ == tools[i].inputs@
        }
}

/// The declarative backend: a loaded manifest, its substitution engine, and
/// the log lines not yet drained.  No process, no background task.
pub struct UtcpClient {
    manual: UtcpManual,
    processor: TemplateProcessor,
    logs: Vec<String>,
}

impl UtcpClient {
    /// The loaded manifest, for contracts to speak about.
    pub closed spec fn manual_spec(&self) -> UtcpManual {
        self.manual
    }

    pub open spec fn tools(&self) -> Seq<UtcpTool> {
        self.manual_spec().tools@
    }

    pub open spec fn manual_title(&self) -> Seq<char> {
        self.manual_spec().info.title@
    }

    pub open spec fn manual_info_version(&self) -> Seq<char> {
        self.manual_spec().info.version@
    }

    pub closed spec fn vars(&self) -> Seq<(Seq<char>, Seq<char>)> {
        self.processor.vars_view()
    }

    pub closed spec fn env(&self) -> Seq<(Seq<char>, Seq<char>)> {
        self.processor.env_view()
    }

    pub closed spec fn log_lines(&self) -> Seq<String> {
        self.logs@
    }

    /// Loads a client from manifest text and a process-environment
    /// snapshot.  Fails exactly when the manifest is rejected; manifest
    /// variables out-rank the environment from then on.
    pub fn from_manual_text(text: &str, environment: Vec<(String, String)>) -> (r: Result<
        UtcpClient,
        ManifestError,
    >)
        ensures
            match r {
                Ok(c) => {
                    &&& crate::json::json_parse(text@) matches Some(d) && manual_shape(d)
                    &&& manual_matches(crate::json::json_parse(text@)->0, c.manual_spec())
                    &&& c.vars() == crate::template::pairs_view(c.manual_spec().variables@)
                    &&& c.env() == crate::template::pairs_view(environment@)
                    &&& c.log_lines() == Seq::<String>::empty()
                },
                Err(_) => match crate::json::json_parse(text@) {
                    Some(d) => !manual_shape(d),
                    None => true,
                },
            },
    {
        let manual = match load_manual(text) {
            Ok(m) => m,
            Err(e) => {
                return Err(e);
            },
        };
        let variables = clone_pairs(&manual.variables);
        proof {
            assert(crate::template::pairs_view(variables@) =~= crate::template::pairs_view(
                manual.variables@,
            ));
        }
        let processor = TemplateProcessor::with_env(variables, environment);
        Ok(UtcpClient { manual, processor, logs: Vec::new() })
    }

    /// What this backend says of itself: the manifest's title and version,
    /// and what it can execute — the tool count, and the two execution
    /// kinds.
    pub fn server_info(&self) -> (r: ServerInfo)
        ensures
            r.name@ == self.manual_title(),
            r.version@ == self.manual_info_version(),
            r.protocol_type@ == "UTCP"@,
            r.capabilities@.len() == 3,
            r.capabilities@[0]@ == crate::text::dec_digits(self.tools().len()) + " tools"@,
            r.capabilities@[1]@ == "HTTP execution"@,
            r.capabilities@[2]@ == "CLI execution"@,
    {
        let mut capabilities: Vec<String> = Vec::new();
        let count = self.manual.tools.len();
        let mut line: Vec<char> = Vec::new();
        crate::text::push_u64_digits(count as u64, &mut line);
        proof {
            reveal_strlit(" tools");
            reveal_strlit("HTTP execution");
            reveal_strlit("CLI execution");
            reveal_strlit("UTCP");
        }
        crate::text::push_chars(&mut line, " tools");
        capabilities.push(crate::text::string_of_chars(&line));
        capabilities.push(String::from_str("HTTP execution"));
        capabilities.push(String::from_str("CLI execution"));
        ServerInfo {
            name: self.manual.info.title.clone(),
            version: self.manual.info.version.clone(),
            protocol_type: String::from_str("UTCP"),
            capabilities,
        }
    }

    /// The backend-specific handshake: nothing to do but note it and hand
    /// out the server info.
    pub fn initialize(&mut self) -> (r: ServerInfo)
        ensures
            final(self).tools() == old(self).tools(),
            final(self).vars() == old(self).vars(),
            final(self).env() == old(self).env(),
            final(self).log_lines().len() == old(self).log_lines().len() + 1,
            final(self).log_lines().last()@ == "UTCP client initialized"@,
            r.name@ == old(self).manual_title(),
            r.version@ == old(self).manual_info_version(),
            r.protocol_type@ == "UTCP"@,
            r.capabilities@.len() == 3,
            r.capabilities@[0]@ == crate::text::dec_digits(old(self).tools().len()) + " tools"@,
            r.capabilities@[1]@ == "HTTP execution"@,
            r.capabilities@[2]@ == "CLI execution"@,
    {
        self.logs.push(String::from_str("UTCP client initialized"));
        self.server_info()
    }

    /// Notes the shutdown; there is no process to stop.
    pub fn shutdown(&mut self)
        ensures
            final(self).tools() == old(self).tools(),
            final(self).log_lines().len() == old(self).log_lines().len() + 1,
            final(self).log_lines().last()@ == "UTCP client shutdown"@,
    {
        self.logs.push(String::from_str("UTCP client shutdown"));
    }

    /// Appends one line to the log.
    pub fn log(&mut self, line: String)
        ensures
            final(self).tools() == old(self).tools(),
            final(self).vars() == old(self).vars(),
            final(self).env() == old(self).env(),
            final(self).log_lines() == old(self).log_lines().push(line),
    {
        self.logs.push(line);
    }

    /// Drains the log: everything accumulated since the previous drain, and
    /// nothing is returned twice.
    pub fn get_logs(&mut self) -> (r: Vec<String>)
        ensures
            r@ == old(self).log_lines(),
            final(self).log_lines() == Seq::<String>::empty(),
            final(self).tools() == old(self).tools(),
            final(self).vars() == old(self).vars(),
            final(self).env() == old(self).env(),
    {
        let mut drained: Vec<String> = Vec::new();
        core::mem::swap(&mut drained, &mut self.logs);
        drained
    }

    /// The manifest's tools as descriptors, re-derived on every call: the
    /// same manifest always yields the same descriptor list.
    pub fn list_tools(&self) -> (r: Vec<ProtocolTool>)
        ensures
            descriptors_match(self.tools(), r@),
    {
        let mut out: Vec<ProtocolTool> = Vec::new();
        let mut i: usize = 0;
        while i < self.manual.tools.len()
            invariant
                0 <= i <= self.manual.tools@.len(),
                self.tools() == self.manual.tools@,
                out@.len() == i,
                forall|j: int|
                    0 <= j < i ==> {
                        &&& (#[trigger] out@[j]).name@ == self.manual.tools@[j].name@
                        &&& match (out@[j].description, self.manual.tools@[j].description) {
                            (Some(a), Some(b)) => a@ == b@,
                            (None, None) => true,
                            _ => false,
                        }
                        &&& out@[j].input_schema@ == self.manual.tools@[j].inputs@
                    },
            decreases self.manual.tools@.len() - i,
        {
            let t = &self.manual.tools[i];
            let description: Option<String> = match &t.description {
                Some(d) => Some(d.clone()),
                None => None,
            };
            out.push(
                ProtocolTool {
                    name: t.name.clone(),
                    description,
                    input_schema: t.inputs.duplicate(),
                },
            );
            i = i + 1;
        }
        out
    }

    /// This backend has no prompts: the list is always empty.
    pub fn list_prompts(&self) -> (r: Vec<ProtocolPrompt>)
        ensures
            r@.len() == 0,
    {
        Vec::new()
    }

    /// This backend has no resources: the list is always empty.
    pub fn list_resources(&self) -> (r: Vec<ProtocolResource>)
        ensures
            r@.len() == 0,
    {
        Vec::new()
    }

    /// Prompts are unsupported by design: the call always fails at once,
    /// whatever the manifest holds.
    pub fn get_prompt(&self, name: &str) -> (r: Result<PromptResult, UtcpError>)
        ensures
            r matches Err(e) && e is Unsupported,
    {
        Err(UtcpError::Unsupported)
    }

    /// Resources are unsupported by design: the call always fails at once,
    /// whatever the manifest holds.
    pub fn read_resource(&self, uri: &str) -> (r: Result<ResourceReadResult, UtcpError>)
        ensures
            r matches Err(e) && e is Unsupported,
    {
        Err(UtcpError::Unsupported)
    }

    /// The first tool of that name.
    fn find_tool(&self, name: &String) -> (r: Option<&UtcpTool>)
        ensures
            match r {
                Some(t) => tool_named(self.tools(), name@) == Some(*t),
                None => tool_named(self.tools(), name@) is None,
            },
    {
        let ghost gtools = self.manual.tools@;
        proof {
            assert(gtools.skip(0) =~= gtools);
        }
        let mut i: usize = 0;
        while i < self.manual.tools.len()
            invariant
                0 <= i <= gtools.len(),
                gtools == self.manual.tools@,
                self.tools() == gtools,
                tool_named(gtools, name@) == tool_named(gtools.skip(i as int), name@),
            decreases gtools.len() - i,
        {
            proof {
                assert(gtools.skip(i as int)[0] == gtools[i as int]);
                assert(gtools.skip(i as int).drop_first() =~= gtools.skip(i + 1));
            }
            if self.manual.tools[i].name == *name {
                return Some(&self.manual.tools[i]);
            }
            i = i + 1;
        }
        proof {
            assert(gtools.skip(i as int) =~= Seq::empty());
        }
        None
    }

    /// Resolves one tool call to its concrete invocation.  Fails with the
    /// unknown name when the manifest holds no such tool, and — for an HTTP
    /// tool — with the first unresolvable `${NAME}`.  A command-line tool
    /// always yields a run: a command whose name cannot be resolved fails
    /// the run only when it is reached.
    pub fn plan_call(&self, name: &String, args: &Vec<(String, JsonValue)>) -> (r: Result<
        ToolInvocation,
        UtcpError,
    >)
        ensures
            tool_named(self.tools(), name@) is None <==> (r matches Err(e) && e matches
                UtcpError::UnknownTool { name: n } && n@ == name@),
            match r {
                Ok(inv) => {
                    &&& tool_named(self.tools(), name@) matches Some(t)
                    &&& match inv {
                        ToolInvocation::Http(p) => t.tool_call_template matches CallTemplate::Http(
                            ht,
                        ) && http_plan_ok(ht, self.vars(), self.env()) && http_plan_matches(
                            ht,
                            self.vars(),
                            self.env(),
                            crate::json::data_of_fields(args@),
                            p,
                        ),
                        ToolInvocation::Cli(run) => {
                            &&& t.tool_call_template matches CallTemplate::Cli(ct)
                            &&& cli_plan_matches(
                                ct,
                                self.vars(),
                                self.env(),
                                crate::json::data_of_fields(args@),
                                run.plan,
                            )
                            &&& run.outputs@.len() == 0
                            &&& run.cursor == 0
                            &&& run.result is None
                        },
                    }
                },
                Err(e) => match e {
                    UtcpError::UnknownTool { name: n } => n@ == name@ && tool_named(
                        self.tools(),
                        name@,
                    ) is None,
                    UtcpError::MissingVariable { missing } => tool_named(
                        self.tools(),
                        name@,
                    ) matches Some(t) && match t.tool_call_template {
                        CallTemplate::Http(ht) => !http_plan_ok(ht, self.vars(), self.env()),
                        CallTemplate::Cli(_) => false,
                    },
                    UtcpError::Unsupported => false,
                },
            },
    {
        let tool = match self.find_tool(name) {
            Some(t) => t,
            None => {
                return Err(UtcpError::UnknownTool { name: name.clone() });
            },
        };
        match &tool.tool_call_template {
            CallTemplate::Http(ht) => match build_http_plan(ht, &self.processor, args) {
                Ok(p) => Ok(ToolInvocation::Http(p)),
                Err(e) => Err(UtcpError::MissingVariable { missing: e.missing }),
            },
            CallTemplate::Cli(ct) => Ok(
                ToolInvocation::Cli(CliRun::new(build_cli_plan(ct, &self.processor, args))),
            ),
        }
    }
}

/// Wraps an HTTP reply: success is the status class alone, the body text is
/// the single content item.
pub fn http_result(status: u16, body: String) -> (r: ToolCallResult)
    ensures
        r.is_error == !(200 <= status < 300),
        r.content@.len() == 1,
        r.content@[0] matches ContentItem::Text(t) && t@ == body@,
{
    let is_error = !(200 <= status && status < 300);
    let mut content: Vec<ContentItem> = Vec::new();
    content.push(ContentItem::Text(body));
    ToolCallResult { content, is_error }
}

/// Copies an association list, views kept.
fn clone_pairs(v: &Vec<(String, String)>) -> (r: Vec<(String, String)>)
    ensures
        r@.len() == v@.len(),
        forall|i: int|
            0 <= i < v@.len() ==> (#[trigger] r@[i]).0@ == v@[i].0@ && r@[i].1@ == v@[i].1@,
{
    let mut out: Vec<(String, String)> = Vec::new();
    let mut i: usize = 0;
    while i < v.len()
        invariant
            0 <= i <= v@.len(),
            out@.len() == i,
            forall|j: int|
                0 <= j < i ==> (#[trigger] out@[j]).0@ == v@[j].0@ && out@[j].1@ == v@[j].1@,
        decreases v@.len() - i,
    {
        out.push((v[i].0.clone(), v[i].1.clone()));
        i = i + 1;
    }
    out
}

/// The same manifest always yields the same descriptor list: two
/// descriptor lists derived from one tool list are equal, element for
/// element, with no intervening change possible.
pub proof fn lemma_list_tools_stable(tools: Seq<UtcpTool>, a: Seq<ProtocolTool>, b: Seq<ProtocolTool>)
    requires
        descriptors_match(tools, a),
        descriptors_match(tools, b),
    ensures
        a.len() == b.len(),
        forall|i: int|
            0 <= i < a.len() ==> (#[trigger] a[i]).name@ == b[i].name@ && a[i].input_schema@
                == b[i].input_schema@ && match (a[i].description, b[i].description) {
                (Some(x), Some(y)) => x@ == y@,
                (None, None) => true,
                _ => false,
            },
{
}

} // verus!
