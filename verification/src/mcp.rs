//! The subprocess backend's wire protocol and correlation engine.
//!
//! Requests and notifications are JSON-RPC 2.0 objects, one per line.  Each
//! outstanding call claims a fresh, strictly increasing identifier before
//! its line is written; a single reader classifies every inbound line as a
//! response, an other message, or noise, and a response resolves exactly the
//! call whose identifier it carries — at most once, and never after that
//! call has already timed out.

use vstd::prelude::*;
use crate::json::{
    JsonValue, JsonData, member_of, json_text, data_of_fields, lemma_data_of_fields_index,
    lemma_data_of_fields_len,
};
use crate::text::{dec_int, int_of_literal, i64_to_string};

verus! {

broadcast use vstd::std_specs::vec::group_vec_axioms, vstd::seq::group_seq_axioms;

/// An outbound JSON-RPC message: a request when `id` is set, a notification
/// when it is not.
pub struct JsonRpcRequest {
    pub jsonrpc: String,
    pub id: Option<i64>,
    pub method: String,
    pub params: Option<JsonValue>,
}

/// The fields of the message's JSON object, in wire order; `id` and
/// `params` are left out when absent.
pub open spec fn req_fields(r: JsonRpcRequest) -> Seq<(Seq<char>, JsonData)> {
    let base = seq![("jsonrpc"@, JsonData::Str { text: r.jsonrpc@ })];
    let with_id = if r.id is Some {
        base + seq![("id"@, JsonData::Num { text: dec_int(r.id->0 as int) })]
    } else {
        base
    };
    let with_method = with_id + seq![("method"@, JsonData::Str { text: r.method@ })];
    if r.params is Some {
        with_method + seq![("params"@, r.params->0@)]
    } else {
        with_method
    }
}

pub open spec fn req_json(r: JsonRpcRequest) -> JsonData {
    JsonData::Obj { fields: req_fields(r) }
}

impl JsonRpcRequest {
    /// A request carrying `id`.
    pub fn new(id: i64, method: &str, params: Option<JsonValue>) -> (r: Self)
        ensures
            r.jsonrpc@ == "2.0"@,
            r.id == Some(id),
            r.method@ == method@,
            match params {
                Some(p) => r.params matches Some(q) && q@ == p@,
                None => r.params is None,
            },
    {
        JsonRpcRequest { jsonrpc: String::from_str("2.0"), id: Some(id), method: String::from_str(
            method,
        ), params }
    }

    /// A notification: no identifier, no reply expected.
    pub fn notification(method: &str, params: Option<JsonValue>) -> (r: Self)
        ensures
            r.jsonrpc@ == "2.0"@,
            r.id is None,
            r.method@ == method@,
            match params {
                Some(p) => r.params matches Some(q) && q@ == p@,
                None => r.params is None,
            },
    {
        JsonRpcRequest { jsonrpc: String::from_str("2.0"), id: None, method: String::from_str(
            method,
        ), params }
    }

    /// This message as a JSON object.
    pub fn to_json(&self) -> (r: JsonValue)
        ensures
            r@ == req_json(*self),
    {
        let mut fields: Vec<(String, JsonValue)> = Vec::new();
        fields.push((String::from_str("jsonrpc"), JsonValue::Text(self.jsonrpc.clone())));
        if let Some(id) = self.id {
            fields.push((String::from_str("id"), JsonValue::Number(i64_to_string(id))));
        }
        fields.push((String::from_str("method"), JsonValue::Text(self.method.clone())));
        if let Some(p) = &self.params {
            fields.push((String::from_str("params"), p.duplicate()));
        }
        proof {
            broadcast use lemma_data_of_fields_index;

            lemma_data_of_fields_len(fields@);
            assert(data_of_fields(fields@) =~= req_fields(*self));
        }
        JsonValue::Object(fields)
    }

    /// This message as one line of wire text (without the newline).
    pub fn to_line(&self) -> (r: String)
        ensures
            r@ == json_text(req_json(*self)),
    {
        let v = self.to_json();
        crate::json::json_to_string(&v)
    }
}

/// A well-formed error member of a response.
pub struct JsonRpcError {
    pub code: i32,
    pub message: String,
    pub data: Option<JsonValue>,
}

/// An inbound JSON-RPC response: a result or an error for one identifier.
pub struct JsonRpcResponse {
    pub jsonrpc: String,
    pub id: JsonValue,
    pub result: Option<JsonValue>,
    pub error: Option<JsonRpcError>,
}

/// An optional member that may be absent or `null`, both meaning "none".
pub open spec fn opt_value_matches(m: Option<JsonData>, o: Option<JsonValue>) -> bool {
    match m {
        None => o is None,
        Some(d) => {
            if d is Null {
                o is None
            } else {
                o matches Some(v) && v@ == d
            }
        },
    }
}

/// `d` has the shape of an error member: an object whose `code` is an
/// integer that fits an `i32` and whose `message` is a string.
pub open spec fn err_shape(d: JsonData) -> bool {
    &&& d is Obj
    &&& member_of(d, "code"@) matches Some(JsonData::Num { text })
        && (int_of_literal(text) matches Some(v) && i32::MIN <= v <= i32::MAX)
    &&& member_of(d, "message"@) matches Some(JsonData::Str { text: _ })
}

pub open spec fn err_matches(d: JsonData, e: JsonRpcError) -> bool {
    &&& member_of(d, "code"@) matches Some(JsonData::Num { text }) && int_of_literal(text) == Some(
        e.code as int,
    )
    &&& member_of(d, "message"@) == Some(JsonData::Str { text: e.message@ })
    &&& opt_value_matches(member_of(d, "data"@), e.data)
}

/// `d` has the shape of a response: an object with a string `jsonrpc`, an
/// `id` of any kind, and — if an `error` member is present and not null — a
/// well-formed error inside it.
pub open spec fn resp_shape(d: JsonData) -> bool {
    &&& d is Obj
    &&& member_of(d, "jsonrpc"@) matches Some(JsonData::Str { text: _ })
    &&& member_of(d, "id"@) is Some
    &&& match member_of(d, "error"@) {
        None => true,
        Some(e) => e is Null || err_shape(e),
    }
}

pub open spec fn resp_matches(d: JsonData, r: JsonRpcResponse) -> bool {
    &&& member_of(d, "jsonrpc"@) == Some(JsonData::Str { text: r.jsonrpc@ })
    &&& member_of(d, "id"@) == Some(r.id@)
    &&& opt_value_matches(member_of(d, "result"@), r.result)
    &&& match member_of(d, "error"@) {
        None => r.error is None,
        Some(e) => {
            if e is Null {
                r.error is None
            } else {
                r.error matches Some(err) && err_matches(e, err)
            }
        },
    }
}

/// Reads an error member; `None` exactly when the shape is wrong.
fn error_from_json(v: &JsonValue) -> (r: Option<JsonRpcError>)
    ensures
        r is Some <==> err_shape(v@),
        r matches Some(e) ==> err_matches(v@, e),
{
    if v.as_object().is_none() {
        return None;
    }
    let code64: i64 = match v.get(&String::from_str("code")) {
        Some(c) => match c.as_i64() {
            Some(n) => n,
            None => {
                return None;
            },
        },
        None => {
            return None;
        },
    };
    if code64 < -2147483648i64 || code64 > 2147483647i64 {
        return None;
    }
    let code: i32 = code64 as i32;
    let message: String = match v.get(&String::from_str("message")) {
        Some(m) => match m.as_text() {
            Some(s) => s.clone(),
            None => {
                return None;
            },
        },
        None => {
            return None;
        },
    };
    let data: Option<JsonValue> = match v.get(&String::from_str("data")) {
        Some(d) => {
            if let JsonValue::Null = d {
                None
            } else {
                Some(d.duplicate())
            }
        },
        None => None,
    };
    Some(JsonRpcError { code, message, data })
}

/// Reads a response; `None` exactly when the shape is wrong.
pub fn response_from_json(v: &JsonValue) -> (r: Option<JsonRpcResponse>)
    ensures
        r is Some <==> resp_shape(v@),
        r matches Some(resp) ==> resp_matches(v@, resp),
{
    if v.as_object().is_none() {
        return None;
    }
    let jsonrpc: String = match v.get(&String::from_str("jsonrpc")) {
        Some(j) => match j.as_text() {
            Some(s) => s.clone(),
            None => {
                return None;
            },
        },
        None => {
            return None;
        },
    };
    let id: JsonValue = match v.get(&String::from_str("id")) {
        Some(x) => x.duplicate(),
        None => {
            return None;
        },
    };
    let result: Option<JsonValue> = match v.get(&String::from_str("result")) {
        Some(x) => {
            if let JsonValue::Null = x {
                None
            } else {
                Some(x.duplicate())
            }
        },
        None => None,
    };
    let error: Option<JsonRpcError> = match v.get(&String::from_str("error")) {
        Some(e) => {
            if let JsonValue::Null = e {
                None
            } else {
                match error_from_json(e) {
                    Some(err) => Some(err),
                    None => {
                        return None;
                    },
                }
            }
        },
        None => None,
    };
    Some(JsonRpcResponse { jsonrpc, id, result, error })
}

/// `d` is request-shaped: an object with a string `jsonrpc` and a string
/// `method`.
pub open spec fn req_shape(d: JsonData) -> bool {
    &&& d is Obj
    &&& member_of(d, "jsonrpc"@) matches Some(JsonData::Str { text: _ })
    &&& member_of(d, "method"@) matches Some(JsonData::Str { text: _ })
}

fn is_request_shaped(v: &JsonValue) -> (r: bool)
    ensures
        r == req_shape(v@),
{
    if v.as_object().is_none() {
        return false;
    }
    let jr = match v.get(&String::from_str("jsonrpc")) {
        Some(j) => j.as_text().is_some(),
        None => false,
    };
    if !jr {
        return false;
    }
    match v.get(&String::from_str("method")) {
        Some(m) => m.as_text().is_some(),
        None => false,
    }
}

/// What one inbound line turned out to be.
pub enum InboundMessage {
    /// A response whose identifier is an integer: for the correlator.
    Response { id: i64, response: JsonRpcResponse },
    /// A parsed message that no call is waiting for: a response with a
    /// non-integer identifier, or a notification or peer request.
    Other { document: JsonValue },
    /// Not JSON, or JSON of neither shape.  Dropped; the reader goes on.
    Unparsable,
}

/// Classifies one line from the peer's output stream: first as a response,
/// then as a request-shaped message, else as noise.  One bad line never
/// stops the reader.
pub fn classify_line(line: &str) -> (r: InboundMessage)
    ensures
        match r {
            InboundMessage::Response { id, response } => {
                &&& crate::json::json_parse(line@) matches Some(d) && resp_shape(d) && resp_matches(
                    d,
                    response,
                )
                &&& response.id@ matches JsonData::Num { text } && int_of_literal(text) == Some(
                    id as int,
                )
            },
            InboundMessage::Other { document } => {
                &&& crate::json::json_parse(line@) == Some(document@)
                &&& resp_shape(document@) || req_shape(document@)
            },
            InboundMessage::Unparsable => match crate::json::json_parse(line@) {
                Some(d) => !resp_shape(d) && !req_shape(d),
                None => true,
            },
        },
{
    match crate::json::parse_json(line) {
        None => InboundMessage::Unparsable,
        Some(doc) => {
            match response_from_json(&doc) {
                Some(resp) => {
                    match resp.id.as_i64() {
                        Some(id) => InboundMessage::Response { id, response: resp },
                        None => InboundMessage::Other { document: doc },
                    }
                },
                None => {
                    if is_request_shaped(&doc) {
                        InboundMessage::Other { document: doc }
                    } else {
                        InboundMessage::Unparsable
                    }
                },
            }
        },
    }
}

/// One outstanding call's slot: registered, resolved with its response, or
/// expired by its deadline.
pub enum SlotState {
    Awaiting,
    Resolved(JsonRpcResponse),
    TimedOut,
}

/// The correlation engine's state: the next fresh identifier and one slot
/// per call whose outcome is still interesting.
pub struct Correlator {
    pub next_id: i64,
    pub slots: Vec<(i64, SlotState)>,
}

/// Some slot holds `id` and is still awaiting its response.
pub open spec fn has_awaiting(slots: Seq<(i64, SlotState)>, id: i64) -> bool {
    exists|j: int| 0 <= j < slots.len() && slots[j].0 == id && slots[j].1 is Awaiting
}

/// Some slot holds `id`, in any state.
pub open spec fn has_slot(slots: Seq<(i64, SlotState)>, id: i64) -> bool {
    exists|j: int| 0 <= j < slots.len() && (#[trigger] slots[j]).0 == id
}

/// Delivering a response to `id` resolves the awaiting slot with that
/// identifier, and changes nothing else; with no such slot it is a no-op.
pub open spec fn deliver_slots(
    slots: Seq<(i64, SlotState)>,
    id: i64,
    resp: JsonRpcResponse,
) -> Seq<(i64, SlotState)> {
    if has_awaiting(slots, id) {
        let j = choose|j: int| 0 <= j < slots.len() && slots[j].0 == id && slots[j].1 is Awaiting;
        slots.update(j, (id, SlotState::Resolved(resp)))
    } else {
        slots
    }
}

/// Expiring `id` marks its awaiting slot timed out; with no awaiting slot
/// it is a no-op.
pub open spec fn expire_slots(slots: Seq<(i64, SlotState)>, id: i64) -> Seq<(i64, SlotState)> {
    if has_awaiting(slots, id) {
        let j = choose|j: int| 0 <= j < slots.len() && slots[j].0 == id && slots[j].1 is Awaiting;
        slots.update(j, (id, SlotState::TimedOut))
    } else {
        slots
    }
}

impl Correlator {
    /// Identifiers start at one, every tracked identifier was issued
    /// before, and no two slots share one.
    pub open spec fn wf(&self) -> bool {
        &&& 1 <= self.next_id
        &&& forall|j: int|
            0 <= j < self.slots@.len() ==> 1 <= (#[trigger] self.slots@[j]).0 < self.next_id
        &&& forall|j: int, k: int|
            0 <= j < k < self.slots@.len() ==> (#[trigger] self.slots@[j]).0 != (
            #[trigger] self.slots@[k]).0
    }

    pub fn new() -> (r: Self)
        ensures
            r.wf(),
            r.next_id == 1,
            r.slots@ == Seq::<(i64, SlotState)>::empty(),
    {
        Correlator { next_id: 1, slots: Vec::new() }
    }

    /// Claims the next identifier and registers its slot, before anything
    /// is sent: a reply can never arrive for an unregistered call.  The
    /// identifier exceeds every identifier tracked so far, and the counter
    /// only ever rises — across registrations it yields strictly
    /// increasing, never reused identifiers.
    pub fn register(&mut self) -> (id: i64)
        requires
            old(self).wf(),
            old(self).next_id < i64::MAX,
        ensures
            final(self).wf(),
            id == old(self).next_id,
            1 <= id,
            !has_slot(old(self).slots@, id),
            forall|j: int|
                0 <= j < old(self).slots@.len() ==> (#[trigger] old(self).slots@[j]).0 < id,
            final(self).next_id == old(self).next_id + 1,
            final(self).slots@ == old(self).slots@.push((id, SlotState::Awaiting)),
    {
        let id = self.next_id;
        self.next_id = self.next_id + 1;
        self.slots.push((id, SlotState::Awaiting));
        proof {
            assert(forall|j: int|
                0 <= j < old(self).slots@.len() ==> (#[trigger] final(self).slots@[j]) == old(
                    self,
                ).slots@[j]);
        }
        id
    }

    /// Offers a response to the slot holding `id`.  It lands exactly when
    /// that slot is still awaiting; a duplicate, a response for an expired
    /// call, or one for an unknown identifier changes nothing.
    pub fn deliver(&mut self, id: i64, resp: JsonRpcResponse) -> (delivered: bool)
        requires
            old(self).wf(),
        ensures
            final(self).wf(),
            final(self).next_id == old(self).next_id,
            delivered == has_awaiting(old(self).slots@, id),
            final(self).slots@ == deliver_slots(old(self).slots@, id, resp),
    {
        let ghost slots0 = self.slots@;
        let mut i: usize = 0;
        while i < self.slots.len()
            invariant
                0 <= i <= self.slots@.len(),
                old(self).wf(),
                slots0 == old(self).slots@,
                self.next_id == old(self).next_id,
                self.slots@ == slots0,
                forall|j: int| 0 <= j < i ==> (#[trigger] slots0[j]).0 != id,
            decreases self.slots@.len() - i,
        {
            if self.slots[i].0 == id {
                match &self.slots[i].1 {
                    SlotState::Awaiting => {
                        self.slots.set(i, (id, SlotState::Resolved(resp)));
                        proof {
                            assert(slots0[i as int].0 == id && slots0[i as int].1 is Awaiting);
                            assert(has_awaiting(slots0, id));
                            let j = choose|j: int|
                                0 <= j < slots0.len() && slots0[j].0 == id
                                    && slots0[j].1 is Awaiting;
                            assert(j == i as int);
                            assert(final(self).slots@ == deliver_slots(slots0, id, resp));
                        }
                        return true;
                    },
                    _ => {
                        proof {
                            assert(forall|j: int|
                                0 <= j < slots0.len() && (#[trigger] slots0[j]).0 == id ==> j
                                    == i as int);
                            assert(!has_awaiting(slots0, id));
                        }
                        return false;
                    },
                }
            }
            i = i + 1;
        }
        proof {
            assert(!has_awaiting(slots0, id));
        }
        false
    }

    /// The call's deadline elapsed: its slot, if still awaiting, is marked
    /// timed out, so a tardy response will be discarded.
    pub fn expire(&mut self, id: i64)
        requires
            old(self).wf(),
        ensures
            final(self).wf(),
            final(self).next_id == old(self).next_id,
            final(self).slots@ == expire_slots(old(self).slots@, id),
    {
        let ghost slots0 = self.slots@;
        let mut i: usize = 0;
        while i < self.slots.len()
            invariant
                0 <= i <= self.slots@.len(),
                old(self).wf(),
                slots0 == old(self).slots@,
                self.next_id == old(self).next_id,
                self.slots@ == slots0,
                forall|j: int| 0 <= j < i ==> (#[trigger] slots0[j]).0 != id,
            decreases self.slots@.len() - i,
        {
            if self.slots[i].0 == id {
                match &self.slots[i].1 {
                    SlotState::Awaiting => {
                        self.slots.set(i, (id, SlotState::TimedOut));
                        proof {
                            assert(has_awaiting(slots0, id));
                            let j = choose|j: int|
                                0 <= j < slots0.len() && slots0[j].0 == id
                                    && slots0[j].1 is Awaiting;
                            assert(j == i as int);
                        }
                        return ;
                    },
                    _ => {
                        proof {
                            assert(forall|j: int|
                                0 <= j < slots0.len() && (#[trigger] slots0[j]).0 == id ==> j
                                    == i as int);
                            assert(!has_awaiting(slots0, id));
                        }
                        return ;
                    },
                }
            }
            i = i + 1;
        }
        proof {
            assert(!has_awaiting(slots0, id));
        }
    }

    /// Collects the response that resolved `id` and drops the slot; `None`
    /// while the call is still awaiting, expired, or unknown.
    pub fn take(&mut self, id: i64) -> (r: Option<JsonRpcResponse>)
        requires
            old(self).wf(),
        ensures
            final(self).wf(),
            final(self).next_id == old(self).next_id,
            match r {
                Some(resp) => exists|j: int|
                    0 <= j < old(self).slots@.len() && old(self).slots@[j] == (
                    id,
                    SlotState::Resolved(resp),
                    ) && final(self).slots@ == old(self).slots@.remove(j),
                None => {
                    &&& final(self).slots@ == old(self).slots@
                    &&& forall|j: int|
                        0 <= j < old(self).slots@.len() && (#[trigger] old(self).slots@[j]).0 == id
                            ==> !(old(self).slots@[j].1 is Resolved)
                },
            },
    {
        let ghost slots0 = self.slots@;
        let mut i: usize = 0;
        while i < self.slots.len()
            invariant
                0 <= i <= self.slots@.len(),
                old(self).wf(),
                slots0 == old(self).slots@,
                self.next_id == old(self).next_id,
                self.slots@ == slots0,
                forall|j: int| 0 <= j < i ==> (#[trigger] slots0[j]).0 != id,
            decreases self.slots@.len() - i,
        {
            if self.slots[i].0 == id {
                let is_resolved = match &self.slots[i].1 {
                    SlotState::Resolved(_) => true,
                    _ => false,
                };
                if is_resolved {
                    let (_, state) = self.slots.remove(i);
                    match state {
                        SlotState::Resolved(resp) => {
                            proof {
                                assert(slots0[i as int] == (id, SlotState::Resolved(resp)));
                            }
                            return Some(resp);
                        },
                        _ => {
                            proof {
                                assert(false);
                            }
                            return None;
                        },
                    }
                } else {
                    proof {
                        assert(forall|j: int|
                            0 <= j < slots0.len() && (#[trigger] slots0[j]).0 == id ==> j
                                == i as int);
                    }
                    return None;
                }
            }
            i = i + 1;
        }
        None
    }
}

/// Each response resolves exactly the call whose identifier it carries:
/// the awaiting slot with that identifier receives it, every other slot is
/// untouched, whatever order responses arrive in.
pub proof fn lemma_response_resolves_only_its_call(
    c: Correlator,
    id: i64,
    resp: JsonRpcResponse,
    j: int,
)
    requires
        c.wf(),
        0 <= j < c.slots@.len(),
    ensures
        c.slots@[j].0 != id ==> deliver_slots(c.slots@, id, resp)[j] == c.slots@[j],
        c.slots@[j] == (id, SlotState::Awaiting) ==> deliver_slots(c.slots@, id, resp)[j] == (
            id,
            SlotState::Resolved(resp),
        ),
        deliver_slots(c.slots@, id, resp).len() == c.slots@.len(),
{
    if has_awaiting(c.slots@, id) {
        let k = choose|k: int|
            0 <= k < c.slots@.len() && c.slots@[k].0 == id && c.slots@[k].1 is Awaiting;
        if c.slots@[j].0 == id {
            assert(j == k);
        }
    }
}

/// A response is delivered at most once: after a slot is resolved, a second
/// response with the same identifier changes nothing at all.
pub proof fn lemma_duplicate_response_discarded(
    c: Correlator,
    id: i64,
    resp1: JsonRpcResponse,
    resp2: JsonRpcResponse,
)
    requires
        c.wf(),
    ensures
        deliver_slots(deliver_slots(c.slots@, id, resp1), id, resp2) == deliver_slots(
            c.slots@,
            id,
            resp1,
        ),
{
    let s1 = deliver_slots(c.slots@, id, resp1);
    if has_awaiting(c.slots@, id) {
        let k = choose|k: int|
            0 <= k < c.slots@.len() && c.slots@[k].0 == id && c.slots@[k].1 is Awaiting;
        assert(forall|j: int|
            0 <= j < c.slots@.len() && (#[trigger] c.slots@[j]).0 == id ==> j == k);
        assert(forall|j: int| 0 <= j < s1.len() && j != k ==> s1[j] == c.slots@[j]);
        assert(!has_awaiting(s1, id));
    } else {
        assert(s1 == c.slots@);
    }
}

/// A response that arrives after its call already timed out is discarded
/// without affecting any other pending or future call: after `expire`,
/// delivering to that identifier changes nothing at all.
pub proof fn lemma_late_response_after_timeout_discarded(
    c: Correlator,
    id: i64,
    resp: JsonRpcResponse,
)
    requires
        c.wf(),
    ensures
        deliver_slots(expire_slots(c.slots@, id), id, resp) == expire_slots(c.slots@, id),
{
    let s1 = expire_slots(c.slots@, id);
    if has_awaiting(c.slots@, id) {
        let k = choose|k: int|
            0 <= k < c.slots@.len() && c.slots@[k].0 == id && c.slots@[k].1 is Awaiting;
        assert(forall|j: int|
            0 <= j < c.slots@.len() && (#[trigger] c.slots@[j]).0 == id ==> j == k);
        assert(forall|j: int| 0 <= j < s1.len() && j != k ==> s1[j] == c.slots@[j]);
        assert(!has_awaiting(s1, id));
    } else {
        assert(s1 == c.slots@);
    }
}


/// Arrival order does not matter: responses for two distinct identifiers
/// leave the correlator in the same state whichever arrives first.
pub proof fn lemma_deliveries_commute(
    c: Correlator,
    id1: i64,
    resp1: JsonRpcResponse,
    id2: i64,
    resp2: JsonRpcResponse,
)
    requires
        c.wf(),
        id1 != id2,
    ensures
        deliver_slots(deliver_slots(c.slots@, id1, resp1), id2, resp2) == deliver_slots(
            deliver_slots(c.slots@, id2, resp2),
            id1,
            resp1,
        ),
{
    let s = c.slots@;
    if has_awaiting(s, id1) && has_awaiting(s, id2) {
        let j1 = choose|j: int| 0 <= j < s.len() && s[j].0 == id1 && s[j].1 is Awaiting;
        let j2 = choose|j: int| 0 <= j < s.len() && s[j].0 == id2 && s[j].1 is Awaiting;
        assert(j1 != j2);
        let a = s.update(j1, (id1, SlotState::Resolved(resp1)));
        let b = s.update(j2, (id2, SlotState::Resolved(resp2)));
        assert(a[j2] == s[j2]);
        assert(has_awaiting(a, id2));
        assert(b[j1] == s[j1]);
        assert(has_awaiting(b, id1));
        let j2a = choose|j: int| 0 <= j < a.len() && a[j].0 == id2 && a[j].1 is Awaiting;
        assert(forall|k: int| 0 <= k < a.len() && k != j1 ==> a[k] == s[k]);
        assert(forall|k: int, l: int|
            0 <= k < s.len() && 0 <= l < s.len() && k != l ==> (#[trigger] s[k]).0 != (
            #[trigger] s[l]).0);
        assert(j2a == j2);
        let j1b = choose|j: int| 0 <= j < b.len() && b[j].0 == id1 && b[j].1 is Awaiting;
        assert(forall|k: int| 0 <= k < b.len() && k != j2 ==> b[k] == s[k]);
        assert(j1b == j1);
        assert(a.update(j2, (id2, SlotState::Resolved(resp2))) =~= b.update(
            j1,
            (id1, SlotState::Resolved(resp1)),
        ));
    } else if has_awaiting(s, id1) {
        let j1 = choose|j: int| 0 <= j < s.len() && s[j].0 == id1 && s[j].1 is Awaiting;
        let a = s.update(j1, (id1, SlotState::Resolved(resp1)));
        assert(forall|k: int| 0 <= k < a.len() && k != j1 ==> a[k] == s[k]);
        assert(!has_awaiting(a, id2));
        assert(has_awaiting(s, id1) && deliver_slots(s, id2, resp2) == s);
    } else if has_awaiting(s, id2) {
        let j2 = choose|j: int| 0 <= j < s.len() && s[j].0 == id2 && s[j].1 is Awaiting;
        let b = s.update(j2, (id2, SlotState::Resolved(resp2)));
        assert(forall|k: int| 0 <= k < b.len() && k != j2 ==> b[k] == s[k]);
        assert(!has_awaiting(b, id1));
    } else {
        assert(deliver_slots(s, id1, resp1) == s);
        assert(deliver_slots(s, id2, resp2) == s);
    }
}

/// Correlation identifiers are strictly increasing and never reused within
/// one client's lifetime: the identifier `register` hands out exceeds every
/// identifier tracked so far, and a later one exceeds an earlier one.
pub proof fn lemma_identifiers_strictly_increase(c: Correlator)
    requires
        c.wf(),
    ensures
        forall|j: int| 0 <= j < c.slots@.len() ==> (#[trigger] c.slots@[j]).0 < c.next_id,
        !has_slot(c.slots@, c.next_id),
{
}

/// Why a correlated call failed after its response arrived.
#[derive(Debug)]
pub enum McpError {
    /// The peer answered with a well-formed error: its code and message.
    Rpc { code: i32, message: String },
    /// The peer answered success but carried no result value.
    MissingResult,
}

/// Turns one correlated response into the call's outcome: an error member
/// surfaces its code and message; otherwise the result value must be there.
pub fn interpret_response(resp: JsonRpcResponse) -> (r: Result<JsonValue, McpError>)
    ensures
        match resp.error {
            Some(e) => r matches Err(McpError::Rpc { code, message }) && code == e.code
                && message@ == e.message@,
            None => match resp.result {
                Some(v) => r matches Ok(x) && x@ == v@,
                None => r matches Err(x) && x is MissingResult,
            },
        },
{
    match resp.error {
        Some(e) => Err(McpError::Rpc { code: e.code, message: e.message }),
        None => match resp.result {
            Some(v) => Ok(v),
            None => Err(McpError::MissingResult),
        },
    }
}

} // verus!
