use vstd::prelude::*;

use crate::json::{get_str, json_parse, parse_json, str_member, Json};
use crate::context::ResponseBuilder;
use crate::store::copy_string;

verus! {

/// The bytes of `lines`, each followed by a newline.
pub open spec fn joined(lines: Seq<Seq<u8>>) -> Seq<u8>
    decreases lines.len(),
{
    if lines.len() == 0 {
        Seq::empty()
    } else {
        joined(lines.drop_last()) + lines.last().push(10u8)
    }
}

pub open spec fn no_newline(s: Seq<u8>) -> bool {
    forall|i: int| 0 <= i < s.len() ==> s[i] != 10u8
}

pub open spec fn lines_view(v: Seq<Vec<u8>>) -> Seq<Seq<u8>> {
    v.map_values(|l: Vec<u8>| l@)
}

/// Holds the unfinished line of a stream between chunks, so that a line split
/// across chunks is seen whole.
pub struct LineBuffer {
    carry: Vec<u8>,
}

impl LineBuffer {
    pub closed spec fn pending(&self) -> Seq<u8> {
        self.carry@
    }

    pub fn new() -> (r: Self)
        ensures
            r.pending().len() == 0,
    {
        LineBuffer { carry: Vec::new() }
    }

    /// Feed a chunk; returns the lines it completes, without their newlines.
    /// The bytes after the last newline wait for the next chunk.
    pub fn push_chunk(&mut self, chunk: &[u8]) -> (r: Vec<Vec<u8>>)
        requires
            no_newline(old(self).pending()),
        ensures
            joined(lines_view(r@)) + final(self).pending() == old(self).pending() + chunk@,
            no_newline(final(self).pending()),
            forall|i: int| 0 <= i < r@.len() ==> no_newline(#[trigger] r@[i]@),
    {
        let mut lines: Vec<Vec<u8>> = Vec::new();
        let mut cur: Vec<u8> = Vec::new();
        std::mem::swap(&mut cur, &mut self.carry);
        let ghost start = cur@;
        let mut i: usize = 0;
        while i < chunk.len()
            invariant
                i <= chunk@.len(),
                joined(lines_view(lines@)) + cur@ == start + chunk@.take(i as int),
                no_newline(cur@),
                forall|k: int| 0 <= k < lines@.len() ==> no_newline(#[trigger] lines@[k]@),
            decreases chunk.len() - i,
        {
            let b = chunk[i];
            let ghost before_lines = lines@;
            let ghost before_cur = cur@;
            if b == 10u8 {
                let mut done: Vec<u8> = Vec::new();
                std::mem::swap(&mut done, &mut cur);
                lines.push(done);
                proof {
                    assert(lines_view(lines@).drop_last() =~= lines_view(before_lines));
                    assert(lines_view(lines@).last() == before_cur);
                    assert(joined(lines_view(lines@)) == joined(lines_view(before_lines))
                        + before_cur.push(10u8));
                    assert(chunk@.take(i + 1) =~= chunk@.take(i as int).push(b));
                    assert(cur@ =~= Seq::<u8>::empty());
                    assert(joined(lines_view(before_lines)) + before_cur == start + chunk@.take(
                        i as int,
                    ));
                    assert(joined(lines_view(lines@)) + cur@ =~= (joined(lines_view(before_lines))
                        + before_cur).push(10u8));
                    assert(joined(lines_view(lines@)) + cur@ =~= start + chunk@.take(i + 1));
                }
            } else {
                cur.push(b);
                proof {
                    assert(chunk@.take(i + 1) =~= chunk@.take(i as int).push(b));
                    assert(joined(lines_view(before_lines)) + before_cur == start + chunk@.take(
                        i as int,
                    ));
                    assert(lines@ == before_lines);
                    assert(joined(lines_view(lines@)) + cur@ =~= (joined(lines_view(before_lines))
                        + before_cur).push(b));
                    assert(joined(lines_view(lines@)) + cur@ =~= start + chunk@.take(i + 1));
                }
            }
            i = i + 1;
        }
        assert(chunk@.take(chunk@.len() as int) =~= chunk@);
        self.carry = cur;
        lines
    }
}

/// What the proxy learns from one event of the upstream stream.
#[derive(Debug, Clone)]
pub enum SseEvent {
    /// A tool call starts: its name, and the shell command it runs, if any.
    ToolUse { name: String, command: Option<String> },
    /// A piece of the response text.
    TextDelta(String),
    /// Token counts and the reason the response stopped, if given.
    Usage { input_tokens: i64, output_tokens: i64, stop_reason: Option<String> },
    /// Nothing the proxy tracks.
    Other,
}

/// The integer member `key` of `v`, zero where there is none.
pub open spec fn int_member(v: Option<Json>, key: Seq<char>) -> i64 {
    match v {
        Some(o) => match o.spec_get(key) {
            Some(Json::Number(Some(n), _)) => n,
            _ => 0,
        },
        None => 0,
    }
}

pub open spec fn opt_str_member(v: Option<Json>, key: Seq<char>) -> Option<Seq<char>> {
    match v {
        Some(o) => str_member(o, key),
        None => None,
    }
}

pub open spec fn opt_view(o: Option<String>) -> Option<Seq<char>> {
    match o {
        Some(s) => Some(s@),
        None => None,
    }
}

/// Whether `e` is what the event payload `j` tells.
pub open spec fn event_of(j: Json, e: SseEvent) -> bool {
    let ty = str_member(j, "type"@);
    if ty == Some("content_block_start"@) && opt_str_member(j.spec_get("content_block"@), "type"@)
        == Some("tool_use"@) && opt_str_member(j.spec_get("content_block"@), "name"@) is Some {
        let block = j.spec_get("content_block"@)->0;
        e matches SseEvent::ToolUse { name, command } && Some(name@) == str_member(block, "name"@)
            && opt_view(command) == opt_str_member(block.spec_get("input"@), "command"@)
    } else if ty == Some("content_block_delta"@) && opt_str_member(j.spec_get("delta"@), "text"@) is Some {
        e matches SseEvent::TextDelta(t) && Some(t@) == opt_str_member(j.spec_get("delta"@), "text"@)
    } else if ty == Some("message_delta"@) && (j.spec_get("usage"@) is Some || opt_str_member(
        j.spec_get("delta"@),
        "stop_reason"@,
    ) is Some) {
        e matches SseEvent::Usage { input_tokens, output_tokens, stop_reason } && input_tokens
            == int_member(j.spec_get("usage"@), "input_tokens"@) && output_tokens == int_member(
            j.spec_get("usage"@),
            "output_tokens"@,
        ) && opt_view(stop_reason) == opt_str_member(j.spec_get("delta"@), "stop_reason"@)
    } else if ty == Some("message_stop"@) && j.spec_get("message"@) is Some && j.spec_get(
        "message"@,
    )->0.spec_get("usage"@) is Some {
        let m = j.spec_get("message"@)->0;
        e matches SseEvent::Usage { input_tokens, output_tokens, stop_reason } && input_tokens
            == int_member(m.spec_get("usage"@), "input_tokens"@) && output_tokens == int_member(
            m.spec_get("usage"@),
            "output_tokens"@,
        ) && opt_view(stop_reason) == str_member(m, "stop_reason"@)
    } else {
        e is Other
    }
}

/// Response text comes only from the `text` of a `content_block_delta` event.
pub proof fn lemma_text_only_from_deltas(j: Json, e: SseEvent)
    requires
        event_of(j, e),
        e is TextDelta,
    ensures
        str_member(j, "type"@) == Some("content_block_delta"@),
        Some(e->TextDelta_0@) == opt_str_member(j.spec_get("delta"@), "text"@),
{
    reveal_strlit("content_block_start");
    reveal_strlit("content_block_delta");
}

fn opt_get<'a>(v: Option<&'a Json>, key: &str) -> (r: Option<&'a Json>)
    ensures
        match v {
            Some(o) => match o.spec_get(key@) {
                Some(x) => r is Some && *r->0 == x,
                None => r is None,
            },
            None => r is None,
        },
{
    match v {
        Some(o) => o.get(key),
        None => None,
    }
}

fn opt_get_str(v: Option<&Json>, key: &str) -> (r: Option<String>)
    ensures
        opt_view(r) == opt_str_member(
            match v {
                Some(o) => Some(*o),
                None => None,
            },
            key@,
        ),
{
    match v {
        Some(o) => match get_str(o, key) {
            Some(s) => Some(copy_string(s)),
            None => None,
        },
        None => None,
    }
}

fn opt_get_int(v: Option<&Json>, key: &str) -> (r: i64)
    ensures
        r == int_member(
            match v {
                Some(o) => Some(*o),
                None => None,
            },
            key@,
        ),
{
    match v {
        Some(o) => match o.get(key) {
            Some(n) => match n.as_i64() {
                Some(x) => x,
                None => 0,
            },
            None => 0,
        },
        None => 0,
    }
}

fn is_str(v: Option<&String>, expected: &str) -> (r: bool)
    ensures
        r == (match v {
            Some(s) => Some(s@),
            None => None,
        } == Some(expected@)),
{
    match v {
        Some(s) => crate::text::str_eq(s.as_str(), expected),
        None => false,
    }
}

/// Read one event payload.
pub fn classify_event(j: &Json) -> (r: SseEvent)
    ensures
        event_of(*j, r),
{
    let ty = get_str(j, "type");
    if is_str(ty, "content_block_start") {
        let block = j.get("content_block");
        let bty = opt_get_str(block, "type");
        let name = opt_get_str(block, "name");
        let is_tool = match &bty {
            Some(t) => crate::text::str_eq(t.as_str(), "tool_use"),
            None => false,
        };
        if is_tool {
            match name {
                Some(n) => {
                    let command = opt_get_str(opt_get(block, "input"), "command");
                    return SseEvent::ToolUse { name: n, command };
                },
                None => {},
            }
        }
    }
    if is_str(ty, "content_block_delta") {
        match opt_get_str(j.get("delta"), "text") {
            Some(t) => {
                return SseEvent::TextDelta(t);
            },
            None => {},
        }
    }
    if is_str(ty, "message_delta") {
        let usage = j.get("usage");
        let stop_reason = opt_get_str(j.get("delta"), "stop_reason");
        if usage.is_some() || stop_reason.is_some() {
            return SseEvent::Usage {
                input_tokens: opt_get_int(usage, "input_tokens"),
                output_tokens: opt_get_int(usage, "output_tokens"),
                stop_reason,
            };
        }
    }
    if is_str(ty, "message_stop") {
        let message = j.get("message");
        let usage = opt_get(message, "usage");
        if usage.is_some() {
            return SseEvent::Usage {
                input_tokens: opt_get_int(usage, "input_tokens"),
                output_tokens: opt_get_int(usage, "output_tokens"),
                stop_reason: opt_get_str(message, "stop_reason"),
            };
        }
    }
    SseEvent::Other
}

/// The prefix of a line that carries an event payload.
pub open spec fn data_prefix() -> Seq<u8> {
    seq![100u8, 97u8, 116u8, 97u8, 58u8, 32u8]
}

/// What one line of the stream tells: an event for a `data: ` line whose
/// payload is JSON, nothing otherwise.
pub open spec fn line_event(line: Seq<u8>, e: SseEvent) -> bool {
    if line.len() >= 6 && line.take(6) == data_prefix() {
        match json_parse(line.skip(6)) {
            Some(j) => event_of(j, e),
            None => e is Other,
        }
    } else {
        e is Other
    }
}

/// Read one complete line of the stream.
pub fn scan_line(line: &[u8]) -> (r: SseEvent)
    ensures
        line_event(line@, r),
{
    if line.len() < 6 || line[0] != 100u8 || line[1] != 97u8 || line[2] != 116u8 || line[3]
        != 97u8 || line[4] != 58u8 || line[5] != 32u8 {
        proof {
            if line@.len() >= 6 {
                assert(line@.take(6)[0] == line@[0]);
                assert(line@.take(6)[1] == line@[1]);
                assert(line@.take(6)[2] == line@[2]);
                assert(line@.take(6)[3] == line@[3]);
                assert(line@.take(6)[4] == line@[4]);
                assert(line@.take(6)[5] == line@[5]);
            }
        }
        return SseEvent::Other;
    }
    assert(line@.take(6) =~= data_prefix());
    let payload = vstd::slice::slice_subrange(line, 6, line.len());
    assert(payload@ =~= line@.skip(6));
    match parse_json(payload) {
        Some(j) => classify_event(&j),
        None => SseEvent::Other,
    }
}

/// Feed a chunk to the stream's line buffer and read the lines it completes, in order.
pub fn scan_chunk(buffer: &mut LineBuffer, chunk: &[u8]) -> (r: Vec<SseEvent>)
    requires
        no_newline(old(buffer).pending()),
    ensures
        no_newline(final(buffer).pending()),
        exists|lines: Seq<Seq<u8>>|
            joined(lines) + final(buffer).pending() == old(buffer).pending() + chunk@ && lines.len()
                == r@.len() && (forall|i: int| 0 <= i < lines.len() ==> no_newline(#[trigger] lines[i]))
                && forall|i: int| 0 <= i < lines.len() ==> line_event(lines[i], #[trigger] r@[i]),
{
    let lines = buffer.push_chunk(chunk);
    let mut events: Vec<SseEvent> = Vec::new();
    let mut i: usize = 0;
    while i < lines.len()
        invariant
            i <= lines@.len(),
            events@.len() == i,
            forall|k: int| 0 <= k < i ==> line_event(lines@[k]@, #[trigger] events@[k]),
        decreases lines.len() - i,
    {
        let e = scan_line(lines[i].as_slice());
        events.push(e);
        i = i + 1;
    }
    let ghost lv = lines_view(lines@);
    assert(forall|k: int| 0 <= k < lv.len() ==> lv[k] == lines@[k]@);
    events
}

/// What the relay does, beside forwarding, for one event of the stream.
#[derive(Debug, Clone)]
pub enum StreamAction {
    /// Nothing beyond forwarding.
    Nothing,
    /// Feed this response text to the question detector.
    Text(String),
    /// Record a tool call for the session's phases.
    Tool { name: String, command: Option<String> },
    /// Log a usage row and report it.
    Usage { input_tokens: i64, output_tokens: i64 },
}

pub open spec fn action_text(a: StreamAction) -> Option<Seq<char>> {
    match a {
        StreamAction::Text(x) => Some(x@),
        _ => None,
    }
}

pub open spec fn action_usage(a: StreamAction) -> Option<(i64, i64)> {
    match a {
        StreamAction::Usage { input_tokens, output_tokens } => Some((input_tokens, output_tokens)),
        _ => None,
    }
}

pub open spec fn action_tool(a: StreamAction) -> Option<(String, Option<String>)> {
    match a {
        StreamAction::Tool { name, command } => Some((name, command)),
        _ => None,
    }
}

/// Take one event of the upstream stream into the response being collected:
/// text is appended; usage sets the token counts and, when it carries one, the
/// stop reason (a later one replaces an earlier one).
pub fn apply_event(b: &mut ResponseBuilder, e: SseEvent) -> (r: StreamAction)
    ensures
        final(b).status_code == old(b).status_code,
        final(b).start_ms == old(b).start_ms,
        final(b).error_message == old(b).error_message,
        match e {
            SseEvent::TextDelta(t) => {
                &&& final(b).response_text@ == old(b).response_text@ + t@
                &&& final(b).input_tokens == old(b).input_tokens
                &&& final(b).output_tokens == old(b).output_tokens
                &&& final(b).stop_reason == old(b).stop_reason
                &&& action_text(r) == Some(t@)
            },
            SseEvent::Usage { input_tokens, output_tokens, stop_reason } => {
                &&& final(b).response_text == old(b).response_text
                &&& final(b).input_tokens == input_tokens
                &&& final(b).output_tokens == output_tokens
                &&& final(b).stop_reason == (if stop_reason is Some {
                    stop_reason
                } else {
                    old(b).stop_reason
                })
                &&& action_usage(r) == Some((input_tokens, output_tokens))
            },
            SseEvent::ToolUse { name, command } => {
                &&& *final(b) == *old(b)
                &&& action_tool(r) == Some((name, command))
            },
            SseEvent::Other => *final(b) == *old(b) && r is Nothing,
        },
{
    match e {
        SseEvent::TextDelta(t) => {
            b.append_text(t.as_str());
            StreamAction::Text(t)
        },
        SseEvent::Usage { input_tokens, output_tokens, stop_reason } => {
            b.set_tokens(input_tokens, output_tokens);
            match stop_reason {
                Some(s) => b.set_stop_reason(s),
                None => {},
            }
            StreamAction::Usage { input_tokens, output_tokens }
        },
        SseEvent::ToolUse { name, command } => StreamAction::Tool { name, command },
        SseEvent::Other => StreamAction::Nothing,
    }
}

/// Whether the finished stream ended the agent's turn, which closes the session
/// for the external tracker.
pub fn ends_turn(b: &ResponseBuilder) -> (r: bool)
    ensures
        r == (opt_view(b.stop_reason) == Some("end_turn"@)),
{
    match &b.stop_reason {
        Some(s) => crate::text::str_eq(s.as_str(), "end_turn"),
        None => false,
    }
}

/// The text that a line contributes to the response: the `delta.text` of a
/// `content_block_delta` payload, nothing for any other line.
pub open spec fn line_text(line: Seq<u8>) -> Seq<char> {
    if line.len() >= 6 && line.take(6) == data_prefix() {
        match json_parse(line.skip(6)) {
            Some(j) => if str_member(j, "type"@) == Some("content_block_delta"@) {
                match opt_str_member(j.spec_get("delta"@), "text"@) {
                    Some(t) => t,
                    None => Seq::empty(),
                }
            } else {
                Seq::empty()
            },
            None => Seq::empty(),
        }
    } else {
        Seq::empty()
    }
}

/// The text an event adds to the response.
pub open spec fn event_text(e: SseEvent) -> Seq<char> {
    match e {
        SseEvent::TextDelta(t) => t@,
        _ => Seq::empty(),
    }
}

/// The text of a chunk's events, in order.
pub open spec fn events_text(es: Seq<SseEvent>) -> Seq<char>
    decreases es.len(),
{
    if es.len() == 0 {
        Seq::empty()
    } else {
        events_text(es.drop_last()) + event_text(es.last())
    }
}

/// The text of a chunk's lines, in order.
pub open spec fn lines_text(ls: Seq<Seq<u8>>) -> Seq<char>
    decreases ls.len(),
{
    if ls.len() == 0 {
        Seq::empty()
    } else {
        lines_text(ls.drop_last()) + line_text(ls.last())
    }
}

/// An event adds exactly the `delta.text` of a `content_block_delta` line to
/// the response text, and nothing else of the line.
pub proof fn lemma_line_text(line: Seq<u8>, e: SseEvent)
    requires
        line_event(line, e),
    ensures
        event_text(e) == line_text(line),
{
    reveal_strlit("content_block_start");
    reveal_strlit("content_block_delta");
    reveal_strlit("message_delta");
    reveal_strlit("message_stop");
    if line.len() >= 6 && line.take(6) == data_prefix() {
        match json_parse(line.skip(6)) {
            Some(j) => {
                let ty = str_member(j, "type"@);
                let dt = opt_str_member(j.spec_get("delta"@), "text"@);
                if ty == Some("content_block_delta"@) {
                    assert("content_block_delta"@[14] == 'd');
                    assert("content_block_start"@[14] == 's');
                    assert("content_block_delta"@ != "content_block_start"@);
                    assert(ty != Some("content_block_start"@));
                    if dt is Some {
                        assert(e is TextDelta);
                    } else {
                        assert("content_block_delta"@.len() == 19);
                        assert("message_delta"@.len() == 13);
                        assert("message_stop"@.len() == 12);
                        assert(ty != Some("message_delta"@));
                        assert(ty != Some("message_stop"@));
                        assert(e is Other);
                    }
                } else {
                    assert(!(e is TextDelta));
                }
            },
            None => {},
        }
    }
}

/// The response text taken from a chunk is the `delta.text` of its
/// `content_block_delta` lines, in line order, and nothing else.
pub proof fn lemma_chunk_text_from_deltas(lines: Seq<Seq<u8>>, es: Seq<SseEvent>)
    requires
        lines.len() == es.len(),
        forall|i: int| 0 <= i < lines.len() ==> line_event(lines[i], #[trigger] es[i]),
    ensures
        events_text(es) == lines_text(lines),
    decreases lines.len(),
{
    if lines.len() > 0 {
        let n = lines.len() - 1;
        assert forall|i: int| 0 <= i < lines.drop_last().len() implies line_event(
            lines.drop_last()[i],
            #[trigger] es.drop_last()[i],
        ) by {
            assert(line_event(lines[i], es[i]));
        }
        lemma_chunk_text_from_deltas(lines.drop_last(), es.drop_last());
        assert(line_event(lines[n], es[n]));
        lemma_line_text(lines.last(), es.last());
    }
}

/// Only `message_delta` and `message_stop` payloads report usage: a text
/// delta or a message start never does.
pub proof fn lemma_usage_only_from_message_end(line: Seq<u8>, e: SseEvent)
    requires
        line_event(line, e),
        e is Usage,
    ensures
        line.len() >= 6 && line.take(6) == data_prefix(),
        json_parse(line.skip(6)) is Some,
        str_member(json_parse(line.skip(6))->0, "type"@) == Some("message_delta"@) || str_member(
            json_parse(line.skip(6))->0,
            "type"@,
        ) == Some("message_stop"@),
{
    reveal_strlit("content_block_start");
    reveal_strlit("content_block_delta");
    reveal_strlit("message_delta");
    reveal_strlit("message_stop");
}

/// The response text of a chunk's events; `None` where there is none.
pub fn chunk_text(events: &Vec<SseEvent>) -> (r: Option<String>)
    ensures
        match r {
            Some(s) => s@ == events_text(events@) && s@.len() > 0,
            None => events_text(events@).len() == 0,
        },
{
    let mut out = String::new();
    let mut i: usize = 0;
    assert(events@.take(0) =~= Seq::<SseEvent>::empty());
    while i < events.len()
        invariant
            i <= events@.len(),
            out@ == events_text(events@.take(i as int)),
        decreases events.len() - i,
    {
        proof {
            assert(events@.take(i + 1).drop_last() =~= events@.take(i as int));
            assert(events@.take(i + 1).last() == events@[i as int]);
        }
        match &events[i] {
            SseEvent::TextDelta(t) => {
                crate::text::push_str(&mut out, t.as_str());
            },
            _ => {
                assert(out@ =~= out@ + Seq::<char>::empty());
            },
        }
        i = i + 1;
    }
    assert(events@.take(i as int) =~= events@);
    if out.as_str().is_empty() {
        None
    } else {
        Some(out)
    }
}

} // verus!
