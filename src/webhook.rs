use vstd::prelude::*;

use crate::json::{get_str, json_parse, parse_json, str_member, Json, JsonEntry};
use crate::store::{copy_string, opt_view, ExternalMapping};
use crate::text::{decimal, decimal_string, push_str};

verus! {

/// The decimal text of an integer, with a minus sign where it is negative.
pub open spec fn int_text(n: int) -> Seq<char> {
    if n < 0 {
        "-"@ + decimal((-n) as nat)
    } else {
        decimal(n as nat)
    }
}

/// A JSON integer.
pub fn int_json(n: i64) -> (r: Json)
    ensures
        is_int(r, n),
        match r {
            Json::Number(_, t) => t@ == int_text(n as int),
            _ => false,
        },
{
    let text = if n < 0 {
        let mut s = String::from_str("-");
        let mag: u64 = if n == i64::MIN {
            9223372036854775808u64
        } else {
            (-n) as u64
        };
        let d = decimal_string(mag);
        push_str(&mut s, d.as_str());
        s
    } else {
        decimal_string(n as u64)
    };
    Json::Number(Some(n), text)
}

fn entry(key: &str, value: Json) -> (r: JsonEntry)
    ensures
        r.key@ == key@,
        r.value == value,
{
    JsonEntry { key: String::from_str(key), value }
}

fn str_json(s: &str) -> (r: Json)
    ensures
        r.spec_str() == Some(s@),
{
    Json::Str(String::from_str(s))
}

fn opt_str_json(s: &Option<String>) -> (r: Json)
    ensures
        match s {
            Some(v) => r.spec_str() == Some(v@),
            None => r is Null,
        },
{
    match s {
        Some(v) => Json::Str(copy_string(v)),
        None => Json::Null,
    }
}

/// `j` is the integer `n`.
pub open spec fn is_int(j: Json, n: i64) -> bool {
    match j {
        Json::Number(v, _) => v == Some(n),
        _ => false,
    }
}

/// The length of an array value.
pub open spec fn array_len(j: Json) -> Option<nat> {
    match j {
        Json::Array(a) => Some(a@.len()),
        _ => None,
    }
}

/// The items of an array value.
pub open spec fn array_items(j: Json) -> Seq<Json> {
    match j {
        Json::Array(a) => a@,
        _ => Seq::empty(),
    }
}

/// The members of an object value.
pub open spec fn members(j: Json) -> Seq<JsonEntry> {
    match j {
        Json::Object(v) => v@,
        _ => Seq::empty(),
    }
}

/// Where events of the external tracker are posted, under its base URL.
pub open spec fn events_url(base: Seq<char>) -> Seq<char> {
    base + "/api/webhooks/swiftcast"@
}

/// Where a session mapping is forwarded, under the tracker's base URL.
pub open spec fn mapping_url(base: Seq<char>) -> Seq<char> {
    base + "/api/webhooks/session-mapping"@
}

/// The tracker's base URL where none is configured.
pub open spec fn default_tracker_url() -> Seq<char> {
    "http://localhost:21000"@
}

/// The kinds of event sent to the tracker.
#[derive(Debug, Clone, Copy, PartialEq, Eq, Structural)]
pub enum WebhookEvent {
    UsageLogged,
    AiQuestionDetected,
    StepUpdate,
    SessionComplete,
}

impl WebhookEvent {
    pub open spec fn spec_name(self) -> Seq<char> {
        match self {
            WebhookEvent::UsageLogged => "usage_logged"@,
            WebhookEvent::AiQuestionDetected => "ai_question_detected"@,
            WebhookEvent::StepUpdate => "step_update"@,
            WebhookEvent::SessionComplete => "session_complete"@,
        }
    }

    /// The event's name on the wire.
    pub fn name(&self) -> (r: &'static str)
        ensures
            r@ == self.spec_name(),
    {
        match self {
            WebhookEvent::UsageLogged => "usage_logged",
            WebhookEvent::AiQuestionDetected => "ai_question_detected",
            WebhookEvent::StepUpdate => "step_update",
            WebhookEvent::SessionComplete => "session_complete",
        }
    }
}

/// Where, and whether, events go.
pub struct WebhookClient {
    base_url: Option<String>,
    enabled: bool,
}

impl WebhookClient {
    pub closed spec fn spec_base_url(&self) -> Option<Seq<char>> {
        opt_view(self.base_url)
    }

    pub closed spec fn spec_enabled(&self) -> bool {
        self.enabled
    }

    /// A client that sends nothing until configured.
    pub fn new() -> (r: Self)
        ensures
            !r.spec_enabled(),
            r.spec_base_url() is None,
    {
        WebhookClient { base_url: None, enabled: false }
    }

    pub fn configure(&mut self, base_url: Option<String>, enabled: bool)
        ensures
            final(self).spec_base_url() == opt_view(base_url),
            final(self).spec_enabled() == enabled,
    {
        self.base_url = base_url;
        self.enabled = enabled;
    }

    /// Whether events are sent: enabled and a base URL set.
    pub fn is_enabled(&self) -> (r: bool)
        ensures
            r == (self.spec_enabled() && self.spec_base_url() is Some),
    {
        self.enabled && self.base_url.is_some()
    }

    /// The URL events are posted to, while sending is on.
    pub fn endpoint(&self) -> (r: Option<String>)
        ensures
            match r {
                Some(u) => self.spec_enabled() && self.spec_base_url() is Some && u@ == events_url(
                    self.spec_base_url()->0,
                ),
                None => !(self.spec_enabled() && self.spec_base_url() is Some),
            },
    {
        if !self.enabled {
            return None;
        }
        match &self.base_url {
            Some(b) => {
                let mut u = copy_string(b);
                push_str(&mut u, "/api/webhooks/swiftcast");
                Some(u)
            },
            None => None,
        }
    }
}

/// The envelope of an event: its name, the linked task (null where none), the
/// session, the time and the event's own data, in that order.
pub open spec fn is_payload(
    r: Json,
    event: WebhookEvent,
    todo_id: Option<Seq<char>>,
    session_id: Seq<char>,
    timestamp: i64,
    data: Json,
) -> bool {
    let v = members(r);
    &&& r is Object
    &&& v.len() == 5
    &&& v[0].key@ == "event"@ && v[0].value.spec_str() == Some(event.spec_name())
    &&& v[1].key@ == "todo_id"@ && match todo_id {
        Some(t) => v[1].value.spec_str() == Some(t),
        None => v[1].value is Null,
    }
    &&& v[2].key@ == "session_id"@ && v[2].value.spec_str() == Some(session_id)
    &&& v[3].key@ == "timestamp"@ && is_int(v[3].value, timestamp)
    &&& v[4].key@ == "data"@ && v[4].value == data
}

/// Wrap an event's data in its envelope.
pub fn build_payload(
    event: WebhookEvent,
    todo_id: &Option<String>,
    session_id: &str,
    timestamp: i64,
    data: Json,
) -> (r: Json)
    ensures
        is_payload(r, event, opt_view(*todo_id), session_id@, timestamp, data),
{
    let entries = vec![
        entry("event", str_json(event.name())),
        entry("todo_id", opt_str_json(todo_id)),
        entry("session_id", str_json(session_id)),
        entry("timestamp", int_json(timestamp)),
        entry("data", data),
    ];
    Json::Object(entries)
}

/// A session's link as posted to the internal endpoint.
pub open spec fn mapping_request_of(body: Seq<u8>) -> Option<(Seq<char>, Seq<char>, Option<Seq<char>>)> {
    match json_parse(body) {
        Some(j) => match (str_member(j, "session_id"@), str_member(j, "todo_id"@)) {
            (Some(s), Some(t)) => match j.spec_get("mission_id"@) {
                None => Some((s, t, None)),
                Some(Json::Null) => Some((s, t, None)),
                Some(Json::Str(m)) => Some((s, t, Some(m@))),
                _ => None,
            },
            _ => None,
        },
        None => None,
    }
}

/// Read the body of a mapping registration; `None` where it is malformed.
pub fn parse_mapping_request(body: &[u8]) -> (r: Option<ExternalMapping>)
    ensures
        match mapping_request_of(body@) {
            Some((s, t, m)) => r is Some && (r->0).session_id@ == s && (r->0).todo_id@ == t && opt_view(
                (r->0).mission_id,
            ) == m,
            None => r is None,
        },
{
    let j = match parse_json(body) {
        Some(j) => j,
        None => return None,
    };
    let session_id = match get_str(&j, "session_id") {
        Some(s) => copy_string(s),
        None => return None,
    };
    let todo_id = match get_str(&j, "todo_id") {
        Some(t) => copy_string(t),
        None => return None,
    };
    let mission_id = match j.get("mission_id") {
        None => None,
        Some(Json::Null) => None,
        Some(Json::Str(m)) => Some(copy_string(m)),
        Some(_) => return None,
    };
    Some(ExternalMapping { session_id, todo_id, mission_id })
}

/// What is forwarded to the tracker for a new mapping: the session and the
/// agent argument that names the task.
pub fn mapping_forward_payload(session_id: &str, todo_id: &str) -> (r: Json)
    ensures
        r is Object,
        members(r).len() == 2,
        members(r)[0].key@ == "session_id"@ && members(r)[0].value.spec_str() == Some(session_id@),
        members(r)[1].key@ == "args"@ && members(r)[1].value.spec_str() == Some(
            "--todo-id="@ + todo_id@,
        ),
{
    let mut args = String::from_str("--todo-id=");
    push_str(&mut args, todo_id);
    let entries = vec![entry("session_id", str_json(session_id)), entry("args", Json::Str(args))];
    Json::Object(entries)
}

/// Where a mapping is forwarded, given the configured tracker URL.
pub fn mapping_forward_url(configured: Option<&str>) -> (r: String)
    ensures
        r@ == mapping_url(
            match configured {
                Some(u) => u@,
                None => default_tracker_url(),
            },
        ),
{
    let mut u = match configured {
        Some(c) => String::from_str(c),
        None => String::from_str("http://localhost:21000"),
    };
    push_str(&mut u, "/api/webhooks/session-mapping");
    u
}

/// The answer to a mapping registration.
pub fn mapping_response(session_id: &str, todo_id: &str) -> (r: Json)
    ensures
        r is Object,
        members(r).len() == 3,
        members(r)[0].key@ == "success"@ && members(r)[0].value == Json::Bool(true),
        members(r)[1].key@ == "session_id"@ && members(r)[1].value.spec_str() == Some(session_id@),
        members(r)[2].key@ == "todo_id"@ && members(r)[2].value.spec_str() == Some(todo_id@),
{
    let entries = vec![
        entry("success", Json::Bool(true)),
        entry("session_id", str_json(session_id)),
        entry("todo_id", str_json(todo_id)),
    ];
    Json::Object(entries)
}

/// Token counts of a logged request, for the tracker.
pub struct UsageData {
    pub model: String,
    pub input_tokens: i64,
    pub output_tokens: i64,
    pub response_summary: Option<String>,
}

/// A question the agent asked, for the tracker.
pub struct AIQuestionData {
    pub question: String,
    pub options: Vec<String>,
    pub context: String,
}

/// The end of a session's turn, for the tracker.
pub struct SessionCompleteData {
    pub stop_reason: String,
    pub total_input_tokens: i64,
    pub total_output_tokens: i64,
    pub duration_ms: u64,
    pub completed_steps: Vec<String>,
}

impl UsageData {
    /// The event data: model and token counts, and the summary where there is one.
    pub fn to_json(&self) -> (r: Json)
        ensures
            r is Object,
            members(r).len() == if self.response_summary is Some {
                4int
            } else {
                3int
            },
            members(r)[0].key@ == "model"@ && members(r)[0].value.spec_str() == Some(self.model@),
            members(r)[1].key@ == "input_tokens"@ && is_int(members(r)[1].value, self.input_tokens),
            members(r)[2].key@ == "output_tokens"@ && is_int(members(r)[2].value, self.output_tokens),
            self.response_summary is Some ==> members(r)[3].key@ == "response_summary"@ && members(
                r,
            )[3].value.spec_str() == Some(self.response_summary->0@),
    {
        let mut entries = vec![
            entry("model", Json::Str(copy_string(&self.model))),
            entry("input_tokens", int_json(self.input_tokens)),
            entry("output_tokens", int_json(self.output_tokens)),
        ];
        match &self.response_summary {
            Some(s) => entries.push(entry("response_summary", Json::Str(copy_string(s)))),
            None => {},
        }
        Json::Object(entries)
    }
}

fn strings_json(items: &Vec<String>) -> (r: Json)
    ensures
        array_len(r) == Some(items@.len()),
        forall|i: int|
            0 <= i < items@.len() ==> (#[trigger] array_items(r)[i]).spec_str() == Some(items@[i]@),
{
    let mut out: Vec<Json> = Vec::new();
    let mut i: usize = 0;
    while i < items.len()
        invariant
            i <= items@.len(),
            out@.len() == i,
            forall|k: int| 0 <= k < i ==> (#[trigger] out@[k]).spec_str() == Some(items@[k]@),
        decreases items.len() - i,
    {
        out.push(Json::Str(copy_string(&items[i])));
        i = i + 1;
    }
    Json::Array(out)
}

impl AIQuestionData {
    /// The event data: the question, its options and the text before it.
    pub fn to_json(&self) -> (r: Json)
        ensures
            r is Object,
            members(r).len() == 3,
            members(r)[0].key@ == "question"@ && members(r)[0].value.spec_str() == Some(self.question@),
            members(r)[1].key@ == "options"@ && array_len(members(r)[1].value) == Some(
                self.options@.len(),
            ),
            members(r)[2].key@ == "context"@ && members(r)[2].value.spec_str() == Some(self.context@),
    {
        let entries = vec![
            entry("question", Json::Str(copy_string(&self.question))),
            entry("options", strings_json(&self.options)),
            entry("context", Json::Str(copy_string(&self.context))),
        ];
        Json::Object(entries)
    }
}

impl SessionCompleteData {
    /// The event data: the stop reason, totals, duration and finished phases.
    pub fn to_json(&self) -> (r: Json)
        ensures
            r is Object,
            members(r).len() == 5,
            members(r)[0].key@ == "stop_reason"@ && members(r)[0].value.spec_str() == Some(
                self.stop_reason@,
            ),
            members(r)[1].key@ == "total_input_tokens"@ && is_int(
                members(r)[1].value,
                self.total_input_tokens,
            ),
            members(r)[2].key@ == "total_output_tokens"@ && is_int(
                members(r)[2].value,
                self.total_output_tokens,
            ),
            members(r)[3].key@ == "duration_ms"@ && is_int(
                members(r)[3].value,
                if self.duration_ms > i64::MAX as u64 {
                    i64::MAX
                } else {
                    self.duration_ms as i64
                },
            ),
            members(r)[4].key@ == "completed_steps"@ && array_len(members(r)[4].value) == Some(
                self.completed_steps@.len(),
            ),
    {
        let duration: i64 = if self.duration_ms > i64::MAX as u64 {
            i64::MAX
        } else {
            self.duration_ms as i64
        };
        let entries = vec![
            entry("stop_reason", Json::Str(copy_string(&self.stop_reason))),
            entry("total_input_tokens", int_json(self.total_input_tokens)),
            entry("total_output_tokens", int_json(self.total_output_tokens)),
            entry("duration_ms", int_json(duration)),
            entry("completed_steps", strings_json(&self.completed_steps)),
        ];
        Json::Object(entries)
    }
}

/// The event data of a phase report: type, status, progress, message and tool,
/// with null for what is absent.
pub fn step_update_json(u: &crate::step_tracker::StepUpdateData) -> (r: Json)
    ensures
        r is Object,
        members(r).len() == 5,
        members(r)[0].key@ == "step_type"@ && members(r)[0].value.spec_str() == Some(u.step_type@),
        members(r)[1].key@ == "status"@ && members(r)[1].value.spec_str() == Some(u.status@),
        members(r)[2].key@ == "progress"@ && match u.progress {
            Some(p) => is_int(members(r)[2].value, p as i64),
            None => members(r)[2].value is Null,
        },
        members(r)[3].key@ == "message"@ && match u.message {
            Some(m) => members(r)[3].value.spec_str() == Some(m@),
            None => members(r)[3].value is Null,
        },
        members(r)[4].key@ == "tool_name"@ && match u.tool_name {
            Some(m) => members(r)[4].value.spec_str() == Some(m@),
            None => members(r)[4].value is Null,
        },
{
    let progress = match u.progress {
        Some(p) => int_json(p as i64),
        None => Json::Null,
    };
    let entries = vec![
        entry("step_type", Json::Str(copy_string(&u.step_type))),
        entry("status", Json::Str(copy_string(&u.status))),
        entry("progress", progress),
        entry("message", opt_str_json(&u.message)),
        entry("tool_name", opt_str_json(&u.tool_name)),
    ];
    Json::Object(entries)
}

/// The session-complete event of a finished stream, and where it goes. It is
/// sent only while sending is on, when the stream ended the agent's turn, and
/// when the session is linked to a task of the tracker.
pub fn session_complete_request(
    client: &WebhookClient,
    todo_id: &Option<String>,
    session_id: &str,
    timestamp: i64,
    response: &crate::context::ResponseContext,
    completed_steps: Vec<String>,
) -> (r: Option<(String, Json)>)
    ensures
        r is Some <==> (client.spec_enabled() && client.spec_base_url() is Some && opt_view(
            response.stop_reason,
        ) == Some("end_turn"@) && todo_id is Some),
        r is Some ==> {
            let (url, p) = r->0;
            let data = members(p)[4].value;
            &&& url@ == events_url(client.spec_base_url()->0)
            &&& is_payload(p, WebhookEvent::SessionComplete, opt_view(*todo_id), session_id@, timestamp, data)
            &&& members(data).len() == 5
            &&& members(data)[0].key@ == "stop_reason"@
            &&& members(data)[0].value.spec_str() == Some("end_turn"@)
            &&& is_int(members(data)[1].value, response.input_tokens)
            &&& is_int(members(data)[2].value, response.output_tokens)
            &&& array_len(members(data)[4].value) == Some(completed_steps@.len())
        },
{
    let url = match client.endpoint() {
        Some(u) => u,
        None => return None,
    };
    let ended = match &response.stop_reason {
        Some(s) => crate::text::str_eq(s.as_str(), "end_turn"),
        None => false,
    };
    if !ended || todo_id.is_none() {
        return None;
    }
    let data = SessionCompleteData {
        stop_reason: String::from_str("end_turn"),
        total_input_tokens: response.input_tokens,
        total_output_tokens: response.output_tokens,
        duration_ms: response.duration_ms,
        completed_steps,
    };
    let d = data.to_json();
    let p = build_payload(WebhookEvent::SessionComplete, todo_id, session_id, timestamp, d);
    Some((url, p))
}

} // verus!
