use vstd::prelude::*;

use crate::json::Json;
use crate::store::{copy_opt_string, copy_string, opt_view};
use crate::text::{chars_of, push_str, string_of_range};

verus! {

/// What the hooks know of a request.
pub struct RequestContext {
    pub request_id: String,
    pub session_id: Option<String>,
    pub model: String,
    pub method: String,
    pub path: String,
    pub body: Json,
    /// Arrival time, in seconds since the epoch.
    pub timestamp: i64,
    pub timestamp_iso: String,
}

/// The first sixteen characters of a session id.
pub open spec fn short_id(s: Seq<char>) -> Seq<char> {
    if s.len() <= 16 {
        s
    } else {
        s.take(16)
    }
}

impl RequestContext {
    /// A request context; the id and the times come from the caller.
    pub fn new(
        request_id: String,
        session_id: Option<String>,
        model: String,
        method: String,
        path: String,
        body: Json,
        timestamp: i64,
        timestamp_iso: String,
    ) -> (r: Self)
        ensures
            r.request_id == request_id,
            r.session_id == session_id,
            r.model == model,
            r.method == method,
            r.path == path,
            r.body == body,
            r.timestamp == timestamp,
            r.timestamp_iso == timestamp_iso,
    {
        RequestContext { request_id, session_id, model, method, path, body, timestamp, timestamp_iso }
    }

    /// The session id cut to sixteen characters, as used to name log directories.
    pub fn short_session_id(&self) -> (r: Option<String>)
        ensures
            opt_view(r) == match self.session_id {
                Some(s) => Some(short_id(s@)),
                None => None,
            },
    {
        match &self.session_id {
            Some(s) => {
                let c = chars_of(s.as_str());
                let n = if c.len() <= 16 {
                    c.len()
                } else {
                    16
                };
                let r = string_of_range(&c, 0, n);
                assert(c@.len() <= 16 ==> c@.subrange(0, n as int) =~= c@);
                Some(r)
            },
            None => None,
        }
    }
}

/// Whether a status code is a success (2xx).
pub open spec fn is_2xx(status_code: u16) -> bool {
    200 <= status_code < 300
}

/// What the hooks know of a finished response.
#[derive(Debug, Clone)]
pub struct ResponseContext {
    pub status_code: u16,
    pub duration_ms: u64,
    pub input_tokens: i64,
    pub output_tokens: i64,
    pub is_success: bool,
    pub error_message: Option<String>,
    pub response_text: String,
    pub timestamp: i64,
    pub stop_reason: Option<String>,
}

impl ResponseContext {
    /// A response with a status code, finished at `timestamp`; successful when 2xx.
    pub fn new(status_code: u16, timestamp: i64) -> (r: Self)
        ensures
            r.status_code == status_code,
            r.is_success == is_2xx(status_code),
            r.timestamp == timestamp,
            r.duration_ms == 0,
            r.input_tokens == 0,
            r.output_tokens == 0,
            r.error_message is None,
            r.response_text@.len() == 0,
            r.stop_reason is None,
    {
        ResponseContext {
            status_code,
            duration_ms: 0,
            input_tokens: 0,
            output_tokens: 0,
            is_success: 200 <= status_code && status_code < 300,
            error_message: None,
            response_text: String::new(),
            timestamp,
            stop_reason: None,
        }
    }

    /// The same response, taking `duration_ms`.
    pub fn with_duration(self, duration_ms: u64) -> (r: Self)
        ensures
            r == (ResponseContext { duration_ms, ..self }),
    {
        ResponseContext { duration_ms, ..self }
    }

    /// The same response, with these token counts.
    pub fn with_tokens(self, input: i64, output: i64) -> (r: Self)
        ensures
            r == (ResponseContext { input_tokens: input, output_tokens: output, ..self }),
    {
        ResponseContext { input_tokens: input, output_tokens: output, ..self }
    }

    /// The same response, failed with this message.
    pub fn with_error(self, msg: String) -> (r: Self)
        ensures
            r == (ResponseContext { error_message: Some(msg), is_success: false, ..self }),
    {
        ResponseContext { error_message: Some(msg), is_success: false, ..self }
    }
}

/// Collects a response while it streams.
pub struct ResponseBuilder {
    pub status_code: u16,
    /// When the request started, in milliseconds of a monotonic clock.
    pub start_ms: u64,
    pub input_tokens: i64,
    pub output_tokens: i64,
    pub response_text: String,
    pub error_message: Option<String>,
    pub stop_reason: Option<String>,
}

impl ResponseBuilder {
    pub fn new(status_code: u16, start_ms: u64) -> (r: Self)
        ensures
            r.status_code == status_code,
            r.start_ms == start_ms,
            r.input_tokens == 0 && r.output_tokens == 0,
            r.response_text@.len() == 0,
            r.error_message is None,
            r.stop_reason is None,
    {
        ResponseBuilder {
            status_code,
            start_ms,
            input_tokens: 0,
            output_tokens: 0,
            response_text: String::new(),
            error_message: None,
            stop_reason: None,
        }
    }

    /// Add a piece of response text.
    pub fn append_text(&mut self, text: &str)
        ensures
            final(self).response_text@ == old(self).response_text@ + text@,
            final(self).status_code == old(self).status_code,
            final(self).start_ms == old(self).start_ms,
            final(self).input_tokens == old(self).input_tokens,
            final(self).output_tokens == old(self).output_tokens,
            final(self).error_message == old(self).error_message,
            final(self).stop_reason == old(self).stop_reason,
    {
        push_str(&mut self.response_text, text);
    }

    pub fn set_tokens(&mut self, input: i64, output: i64)
        ensures
            *final(self) == (ResponseBuilder { input_tokens: input, output_tokens: output, ..*old(self) }),
    {
        self.input_tokens = input;
        self.output_tokens = output;
    }

    pub fn set_error(&mut self, msg: String)
        ensures
            *final(self) == (ResponseBuilder { error_message: Some(msg), ..*old(self) }),
    {
        self.error_message = Some(msg);
    }

    pub fn set_stop_reason(&mut self, reason: String)
        ensures
            *final(self) == (ResponseBuilder { stop_reason: Some(reason), ..*old(self) }),
    {
        self.stop_reason = Some(reason);
    }

    /// The finished response at `now_ms` of the same clock, stamped `timestamp`:
    /// successful when 2xx and no error was set.
    pub fn build(&self, now_ms: u64, timestamp: i64) -> (r: ResponseContext)
        ensures
            r.status_code == self.status_code,
            r.duration_ms == if now_ms >= self.start_ms {
                (now_ms - self.start_ms) as u64
            } else {
                0
            },
            r.input_tokens == self.input_tokens,
            r.output_tokens == self.output_tokens,
            r.is_success == (is_2xx(self.status_code) && self.error_message is None),
            opt_view(r.error_message) == opt_view(self.error_message),
            r.response_text@ == self.response_text@,
            r.timestamp == timestamp,
            opt_view(r.stop_reason) == opt_view(self.stop_reason),
    {
        let duration_ms = if now_ms >= self.start_ms {
            now_ms - self.start_ms
        } else {
            0
        };
        ResponseContext {
            status_code: self.status_code,
            duration_ms,
            input_tokens: self.input_tokens,
            output_tokens: self.output_tokens,
            is_success: 200 <= self.status_code && self.status_code < 300
                && self.error_message.is_none(),
            error_message: copy_opt_string(&self.error_message),
            response_text: copy_string(&self.response_text),
            timestamp,
            stop_reason: copy_opt_string(&self.stop_reason),
        }
    }
}

/// The request half of a log record.
pub struct RequestLogData {
    pub timestamp: i64,
    pub timestamp_iso: String,
    pub model: String,
    pub method: String,
    pub path: String,
    pub body: Json,
}

/// The response half of a log record.
#[derive(Debug, Clone)]
pub struct ResponseLogData {
    pub timestamp: i64,
    pub status_code: u16,
    pub duration_ms: u64,
    pub input_tokens: i64,
    pub output_tokens: i64,
    pub is_success: bool,
    pub error_message: Option<String>,
    pub response_text: String,
    pub stop_reason: Option<String>,
}

/// One completed exchange, as written to the log.
pub struct HookLogEntry {
    pub request_id: String,
    pub session_id: String,
    pub request: RequestLogData,
    pub response: ResponseLogData,
}

impl HookLogEntry {
    /// The log record of an exchange; a request without session is filed under `unknown`.
    pub fn from_contexts(req: RequestContext, res: ResponseContext) -> (r: Self)
        ensures
            r.request_id == req.request_id,
            r.session_id@ == match req.session_id {
                Some(s) => s@,
                None => "unknown"@,
            },
            r.request.timestamp == req.timestamp,
            r.request.timestamp_iso == req.timestamp_iso,
            r.request.model == req.model,
            r.request.method == req.method,
            r.request.path == req.path,
            r.request.body == req.body,
            r.response.timestamp == res.timestamp,
            r.response.status_code == res.status_code,
            r.response.duration_ms == res.duration_ms,
            r.response.input_tokens == res.input_tokens,
            r.response.output_tokens == res.output_tokens,
            r.response.is_success == res.is_success,
            r.response.error_message == res.error_message,
            r.response.response_text == res.response_text,
            r.response.stop_reason == res.stop_reason,
    {
        let session_id = match req.session_id {
            Some(s) => s,
            None => String::from_str("unknown"),
        };
        HookLogEntry {
            request_id: req.request_id,
            session_id,
            request: RequestLogData {
                timestamp: req.timestamp,
                timestamp_iso: req.timestamp_iso,
                model: req.model,
                method: req.method,
                path: req.path,
                body: req.body,
            },
            response: ResponseLogData {
                timestamp: res.timestamp,
                status_code: res.status_code,
                duration_ms: res.duration_ms,
                input_tokens: res.input_tokens,
                output_tokens: res.output_tokens,
                is_success: res.is_success,
                error_message: res.error_message,
                response_text: res.response_text,
                stop_reason: res.stop_reason,
            },
        }
    }
}

} // verus!
