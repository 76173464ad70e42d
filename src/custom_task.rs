use vstd::prelude::*;
use vstd::string::StringExecFns;

use crate::text::{
    char_is_white, chars_of, contains_seq, find_seq, first_index, is_white, matches_at,
    keys_unique, occurs_at, pairs_keys_unique, push_char, push_str, string_of_range, decimal, decimal_string, str_eq,
};

verus! {

/// The directive that starts a locally answered command.
pub open spec fn directive() -> Seq<char> {
    ">>swiftcast "@
}

/// First position at or after `i` that holds no white space (or the end).
pub open spec fn skip_white(s: Seq<char>, i: int) -> int
    decreases s.len() - i,
{
    if 0 <= i < s.len() && is_white(s[i]) {
        skip_white(s, i + 1)
    } else {
        i
    }
}

/// First position at or after `i` that holds white space (or the end).
pub open spec fn skip_word(s: Seq<char>, i: int) -> int
    decreases s.len() - i,
{
    if 0 <= i < s.len() && !is_white(s[i]) {
        skip_word(s, i + 1)
    } else {
        i
    }
}

/// End of `s[lo..hi]` once trailing white space is dropped.
pub open spec fn trim_end(s: Seq<char>, lo: int, hi: int) -> int
    decreases hi - lo,
{
    if lo < hi && is_white(s[hi - 1]) {
        trim_end(s, lo, hi - 1)
    } else {
        hi
    }
}

/// The task name and argument string that a message asks for: the first word
/// after the first directive, and the rest of the message, trimmed.
pub open spec fn parsed_command(m: Seq<char>) -> Option<(Seq<char>, Seq<char>)> {
    if !contains_seq(m, directive()) {
        None
    } else {
        let start = skip_white(m, first_index(m, directive()) + directive().len());
        let end = skip_word(m, start);
        if start == end {
            None
        } else {
            let a = skip_white(m, end);
            Some((m.subrange(start, end), m.subrange(a, trim_end(m, a, m.len() as int))))
        }
    }
}

pub(crate) fn skip_white_exec(s: &[char], i: usize) -> (r: usize)
    requires
        i <= s@.len(),
    ensures
        r == skip_white(s@, i as int),
        i <= r <= s@.len(),
{
    let mut k = i;
    while k < s.len() && char_is_white(s[k])
        invariant
            i <= k <= s@.len(),
            skip_white(s@, k as int) == skip_white(s@, i as int),
        decreases s.len() - k,
    {
        k = k + 1;
    }
    k
}

fn skip_word_exec(s: &[char], i: usize) -> (r: usize)
    requires
        i <= s@.len(),
    ensures
        r == skip_word(s@, i as int),
        i <= r <= s@.len(),
{
    let mut k = i;
    while k < s.len() && !char_is_white(s[k])
        invariant
            i <= k <= s@.len(),
            skip_word(s@, k as int) == skip_word(s@, i as int),
        decreases s.len() - k,
    {
        k = k + 1;
    }
    k
}

pub(crate) fn trim_end_exec(s: &[char], lo: usize, hi: usize) -> (r: usize)
    requires
        lo <= hi <= s@.len(),
    ensures
        r == trim_end(s@, lo as int, hi as int),
        lo <= r <= hi,
{
    let mut k = hi;
    while k > lo && char_is_white(s[k - 1])
        invariant
            lo <= k <= hi <= s@.len(),
            trim_end(s@, lo as int, k as int) == trim_end(s@, lo as int, hi as int),
        decreases k - lo,
    {
        k = k - 1;
    }
    k
}

/// Find a `>>swiftcast <name> <args>` directive in a user message.
pub fn parse_task_command(message: &str) -> (r: Option<(String, String)>)
    ensures
        match parsed_command(message@) {
            Some((name, args)) => r is Some && (r->0).0@ == name && (r->0).1@ == args,
            None => r is None,
        },
{
    let m = chars_of(message);
    let d = chars_of(">>swiftcast ");
    match find_seq(&m, &d) {
        None => None,
        Some(pos) => {
            assert(occurs_at(m@, d@, pos as int));
            let mlen = m.len();
            assert(pos + d@.len() <= mlen);
            let start = skip_white_exec(&m, pos + d.len());
            let end = skip_word_exec(&m, start);
            if start == end {
                return None;
            }
            let a = skip_white_exec(&m, end);
            let b = trim_end_exec(&m, a, m.len());
            Some((string_of_range(&m, start, end), string_of_range(&m, a, b)))
        },
    }
}

/// `s[i..]` with every occurrence of `p`, taken left to right without
/// overlap, replaced by `r`.
pub open spec fn replace_from(s: Seq<char>, p: Seq<char>, r: Seq<char>, i: int) -> Seq<char>
    decreases s.len() - i,
{
    if i < 0 || i >= s.len() {
        Seq::empty()
    } else if p.len() > 0 && occurs_at(s, p, i) {
        r + replace_from(s, p, r, i + p.len())
    } else {
        seq![s[i]] + replace_from(s, p, r, i + 1)
    }
}

/// `s` with every occurrence of the non-empty pattern `p` replaced by `r`.
pub open spec fn replace_all_spec(s: Seq<char>, p: Seq<char>, r: Seq<char>) -> Seq<char> {
    replace_from(s, p, r, 0)
}

/// Replace every occurrence of `pat` in `s` by `rep`, scanning left to right.
pub fn replace_all(s: &str, pat: &str, rep: &str) -> (r: String)
    requires
        pat@.len() > 0,
    ensures
        r@ == replace_all_spec(s@, pat@, rep@),
{
    let sc = chars_of(s);
    let pc = chars_of(pat);
    let mut out = String::new();
    let mut i: usize = 0;
    while i < sc.len()
        invariant
            sc@ == s@,
            pc@ == pat@,
            pc@.len() > 0,
            i <= sc@.len(),
            out@ + replace_from(sc@, pc@, rep@, i as int) == replace_from(sc@, pc@, rep@, 0),
        decreases sc.len() - i,
    {
        if matches_at(&sc, &pc, i) {
            let ghost before = out@;
            push_str(&mut out, rep);
            proof {
                assert(before + replace_from(sc@, pc@, rep@, i as int) == before + (rep@
                    + replace_from(sc@, pc@, rep@, i + pc@.len())));
                assert(out@ + replace_from(sc@, pc@, rep@, i + pc@.len()) =~= before + (rep@
                    + replace_from(sc@, pc@, rep@, i + pc@.len())));
            }
            i = i + pc.len();
        } else {
            let ghost before = out@;
            push_char(&mut out, sc[i]);
            proof {
                assert(out@ + replace_from(sc@, pc@, rep@, i + 1) =~= before + (seq![sc@[i as int]]
                    + replace_from(sc@, pc@, rep@, i + 1)));
            }
            i = i + 1;
        }
    }
    assert(replace_from(sc@, pc@, rep@, i as int) == Seq::<char>::empty());
    assert(out@ =~= replace_from(sc@, pc@, rep@, 0));
    out
}

/// A hexadecimal digit, lower case.
pub open spec fn hex_digit(n: nat) -> char {
    if n == 0 { '0' } else if n == 1 { '1' } else if n == 2 { '2' } else if n == 3 { '3' }
    else if n == 4 { '4' } else if n == 5 { '5' } else if n == 6 { '6' } else if n == 7 { '7' }
    else if n == 8 { '8' } else if n == 9 { '9' } else if n == 10 { 'a' } else if n == 11 { 'b' }
    else if n == 12 { 'c' } else if n == 13 { 'd' } else if n == 14 { 'e' } else { 'f' }
}

/// How a character is written inside a JSON string: `"` and `\` behind a
/// backslash, the control characters below 0x20 as `\b`, `\t`, `\n`, `\f`,
/// `\r` or `\u00XX`, every other character as itself.
pub open spec fn json_escape_char(c: char) -> Seq<char> {
    if c == '"' {
        seq!['\\', '"']
    } else if c == '\\' {
        seq!['\\', '\\']
    } else if c == '\u{8}' {
        seq!['\\', 'b']
    } else if c == '\t' {
        seq!['\\', 't']
    } else if c == '\n' {
        seq!['\\', 'n']
    } else if c == '\u{c}' {
        seq!['\\', 'f']
    } else if c == '\r' {
        seq!['\\', 'r']
    } else if (c as u32) < 0x20 {
        seq!['\\', 'u', '0', '0', hex_digit((c as u32 / 16) as nat), hex_digit((c as u32 % 16) as nat)]
    } else {
        seq![c]
    }
}

/// The characters of `s`, each written as inside a JSON string.
pub open spec fn json_escaped(s: Seq<char>) -> Seq<char>
    decreases s.len(),
{
    if s.len() == 0 {
        Seq::empty()
    } else {
        json_escaped(s.drop_last()) + json_escape_char(s.last())
    }
}

/// A JSON string literal, quotes included, as `serde_json` writes one.
pub open spec fn json_quoted(s: Seq<char>) -> Seq<char> {
    seq!['"'] + json_escaped(s) + seq!['"']
}

/// Relies on `serde_json::to_string` applied to a string slice: the JSON
/// string literal for `s`, escaped by the table of `format_escaped_str_contents`.
#[verifier::external_body]
fn json_string_literal(s: &str) -> (r: String)
    ensures
        r@ == json_quoted(s@),
{
    serde_json::to_string(s).unwrap_or_default()
}

/// A lower-case hexadecimal digit.
pub open spec fn is_lower_hex(c: char) -> bool {
    ('0' <= c && c <= '9') || ('a' <= c && c <= 'f')
}

/// Relies on `uuid::Uuid::new_v4` and its `simple` form: 32 lower-case
/// hexadecimal digits. `new_v4` panics only where the operating system yields
/// no random bytes.
#[verifier::external_body]
fn random_simple_uuid() -> (r: String)
    ensures
        r@.len() == 32,
        forall|i: int| 0 <= i < 32 ==> is_lower_hex(#[trigger] r@[i]),
{
    uuid::Uuid::new_v4().simple().to_string()
}

/// Largest number of characters carried by one synthesized text delta.
pub const SSE_CHUNK_CHARS: usize = 50;

pub open spec fn message_start_event(id: Seq<char>) -> Seq<char> {
    "event: message_start\ndata: {\"type\":\"message_start\",\"message\":{\"id\":\""@ + id
        + "\",\"type\":\"message\",\"role\":\"assistant\",\"content\":[],\"model\":\"custom-task\",\"stop_reason\":null,\"stop_sequence\":null,\"usage\":{\"input_tokens\":0,\"output_tokens\":0}}}\n\n"@
}

pub open spec fn block_start_event() -> Seq<char> {
    "event: content_block_start\ndata: {\"type\":\"content_block_start\",\"index\":0,\"content_block\":{\"type\":\"text\",\"text\":\"\"}}\n\n"@
}

pub open spec fn delta_event(chunk: Seq<char>) -> Seq<char> {
    "event: content_block_delta\ndata: {\"type\":\"content_block_delta\",\"index\":0,\"delta\":{\"type\":\"text_delta\",\"text\":"@
        + json_quoted(chunk) + "}}\n\n"@
}

/// One text delta per run of at most fifty characters, in order.
pub open spec fn delta_events(t: Seq<char>) -> Seq<char>
    decreases t.len(),
{
    if t.len() == 0 {
        Seq::empty()
    } else if t.len() <= 50 {
        delta_event(t)
    } else {
        delta_event(t.take(50)) + delta_events(t.skip(50))
    }
}

/// The runs of at most fifty characters that the text deltas carry, in order.
pub open spec fn delta_chunks(t: Seq<char>) -> Seq<Seq<char>>
    decreases t.len(),
{
    if t.len() == 0 {
        Seq::empty()
    } else if t.len() <= 50 {
        seq![t]
    } else {
        seq![t.take(50)] + delta_chunks(t.skip(50))
    }
}

/// The runs joined back together.
pub open spec fn joined_chunks(cs: Seq<Seq<char>>) -> Seq<char>
    decreases cs.len(),
{
    if cs.len() == 0 {
        Seq::empty()
    } else {
        cs[0] + joined_chunks(cs.drop_first())
    }
}

/// One text delta event per run, in order.
pub open spec fn delta_events_of(cs: Seq<Seq<char>>) -> Seq<char>
    decreases cs.len(),
{
    if cs.len() == 0 {
        Seq::empty()
    } else {
        delta_event(cs[0]) + delta_events_of(cs.drop_first())
    }
}

/// The text deltas of a synthesized reply carry the text, whole and in order,
/// in runs of one to fifty characters, each a JSON string literal of its run.
pub proof fn lemma_deltas_carry_text(t: Seq<char>)
    ensures
        delta_events(t) == delta_events_of(delta_chunks(t)),
        joined_chunks(delta_chunks(t)) == t,
        forall|i: int| 0 <= i < delta_chunks(t).len() ==> 0 < (#[trigger] delta_chunks(t)[i]).len() <= 50,
    decreases t.len(),
{
    if t.len() == 0 {
    } else if t.len() <= 50 {
        let cs = seq![t];
        assert(cs.drop_first() =~= Seq::<Seq<char>>::empty());
        assert(delta_events_of(Seq::<Seq<char>>::empty()) == Seq::<char>::empty());
        assert(joined_chunks(Seq::<Seq<char>>::empty()) == Seq::<char>::empty());
        assert(delta_events_of(cs) == delta_event(t) + Seq::<char>::empty());
        assert(joined_chunks(cs) == t + Seq::<char>::empty());
        assert(delta_events_of(cs) =~= delta_event(t));
        assert(joined_chunks(cs) =~= t);
    } else {
        lemma_deltas_carry_text(t.skip(50));
        let cs = seq![t.take(50)] + delta_chunks(t.skip(50));
        assert(cs.drop_first() =~= delta_chunks(t.skip(50)));
        assert(joined_chunks(cs) =~= t.take(50) + t.skip(50));
        assert(t.take(50) + t.skip(50) =~= t);
        assert forall|i: int| 0 <= i < cs.len() implies 0 < (#[trigger] cs[i]).len() <= 50 by {
            if i > 0 {
                assert(cs[i] == delta_chunks(t.skip(50))[i - 1]);
            }
        }
    }
}

pub open spec fn block_stop_event() -> Seq<char> {
    "event: content_block_stop\ndata: {\"type\":\"content_block_stop\",\"index\":0}\n\n"@
}

/// The closing delta: `stop_reason` stays null so that listeners do not take a
/// locally answered command for the end of a turn.
pub open spec fn message_delta_event(output_tokens: nat) -> Seq<char> {
    "event: message_delta\ndata: {\"type\":\"message_delta\",\"delta\":{\"stop_reason\":null,\"stop_sequence\":null},\"usage\":{\"output_tokens\":"@
        + decimal(output_tokens) + "}}\n\n"@
}

pub open spec fn message_stop_event() -> Seq<char> {
    "event: message_stop\ndata: {\"type\":\"message_stop\"}\n\n"@
}

/// The whole synthesized stream for a message id, a text, and a token estimate.
pub open spec fn sse_stream(id: Seq<char>, text: Seq<char>, output_tokens: nat) -> Seq<char> {
    message_start_event(id) + block_start_event() + delta_events(text) + block_stop_event()
        + message_delta_event(output_tokens) + message_stop_event()
}

proof fn lemma_delta_events_step(t: Seq<char>, i: int)
    requires
        0 <= i < t.len(),
    ensures
        delta_events(t.skip(i)) == delta_event(
            t.subrange(i, if t.len() - i <= 50 { t.len() as int } else { i + 50 }),
        ) + delta_events(t.skip(if t.len() - i <= 50 { t.len() as int } else { i + 50 })),
{
    let u = t.skip(i);
    if t.len() - i <= 50 {
        assert(u =~= t.subrange(i, t.len() as int));
        assert(t.skip(t.len() as int) =~= Seq::<char>::empty());
        assert(delta_events(Seq::<char>::empty()) == Seq::<char>::empty());
        assert(delta_event(u) + Seq::<char>::empty() =~= delta_event(u));
    } else {
        assert(u.take(50) =~= t.subrange(i, i + 50));
        assert(u.skip(50) =~= t.skip(i + 50));
    }
}

/// The text deltas for `text`, each carrying at most fifty characters.
fn delta_events_exec(text: &str) -> (r: String)
    ensures
        r@ == delta_events(text@),
{
    let t = chars_of(text);
    let mut out = String::new();
    let mut i: usize = 0;
    assert(t@.skip(0) =~= t@);
    while i < t.len()
        invariant
            t@ == text@,
            i <= t@.len(),
            out@ + delta_events(t@.skip(i as int)) == delta_events(t@),
        decreases t.len() - i,
    {
        let end: usize = if t.len() - i <= SSE_CHUNK_CHARS {
            t.len()
        } else {
            i + SSE_CHUNK_CHARS
        };
        proof {
            lemma_delta_events_step(t@, i as int);
        }
        let chunk = string_of_range(&t, i, end);
        let quoted = json_string_literal(chunk.as_str());
        let ghost before = out@;
        push_str(
            &mut out,
            "event: content_block_delta\ndata: {\"type\":\"content_block_delta\",\"index\":0,\"delta\":{\"type\":\"text_delta\",\"text\":",
        );
        push_str(&mut out, quoted.as_str());
        push_str(&mut out, "}}\n\n");
        proof {
            assert(out@ =~= before + delta_event(t@.subrange(i as int, end as int)));
        }
        i = end;
    }
    assert(t@.skip(i as int) =~= Seq::<char>::empty());
    assert(out@ =~= delta_events(t@));
    out
}

/// The synthesized event stream that answers a command locally.
pub fn sse_response_with_id(text: &str, message_id: &str) -> (r: String)
    ensures
        r@ == sse_stream(message_id@, text@, (text.len() / 4) as nat),
{
    let mut out = String::from_str(
        "event: message_start\ndata: {\"type\":\"message_start\",\"message\":{\"id\":\"",
    );
    push_str(&mut out, message_id);
    push_str(
        &mut out,
        "\",\"type\":\"message\",\"role\":\"assistant\",\"content\":[],\"model\":\"custom-task\",\"stop_reason\":null,\"stop_sequence\":null,\"usage\":{\"input_tokens\":0,\"output_tokens\":0}}}\n\n",
    );
    push_str(
        &mut out,
        "event: content_block_start\ndata: {\"type\":\"content_block_start\",\"index\":0,\"content_block\":{\"type\":\"text\",\"text\":\"\"}}\n\n",
    );
    let deltas = delta_events_exec(text);
    push_str(&mut out, deltas.as_str());
    push_str(
        &mut out,
        "event: content_block_stop\ndata: {\"type\":\"content_block_stop\",\"index\":0}\n\n",
    );
    push_str(
        &mut out,
        "event: message_delta\ndata: {\"type\":\"message_delta\",\"delta\":{\"stop_reason\":null,\"stop_sequence\":null},\"usage\":{\"output_tokens\":",
    );
    let tokens = decimal_string((text.len() / 4) as u64);
    push_str(&mut out, tokens.as_str());
    push_str(&mut out, "}}\n\n");
    push_str(&mut out, "event: message_stop\ndata: {\"type\":\"message_stop\"}\n\n");
    assert(out@ =~= sse_stream(message_id@, text@, (text.len() / 4) as nat));
    out
}

/// The shape of a synthesized reply's message id: `msg_` and 24 lower-case
/// hexadecimal digits.
pub open spec fn is_message_id(id: Seq<char>) -> bool {
    &&& id.len() == 28
    &&& id.take(4) == "msg_"@
    &&& forall|i: int| 4 <= i < 28 ==> is_lower_hex(#[trigger] id[i])
}

/// Synthesize the event stream for a locally answered command, under a fresh
/// random message id.
pub fn generate_sse_response(text: &str) -> (r: String)
    ensures
        exists|id: Seq<char>|
            is_message_id(id) && r@ == sse_stream(id, text@, (text.len() / 4) as nat),
{
    let hex = random_simple_uuid();
    let hc = chars_of(hex.as_str());
    let mut id = String::from_str("msg_");
    let digits = string_of_range(&hc, 0, 24);
    push_str(&mut id, digits.as_str());
    proof {
        reveal_strlit("msg_");
        assert(id@.take(4) =~= "msg_"@);
        assert forall|i: int| 4 <= i < 28 implies is_lower_hex(#[trigger] id@[i]) by {
            assert(id@[i] == hc@[i - 4]);
        }
        assert(is_message_id(id@));
    }
    let r = sse_response_with_id(text, id.as_str());
    assert(is_message_id(id@) && r@ == sse_stream(id@, text@, (text.len() / 4) as nat));
    r
}

/// How a task is carried out.
#[derive(Debug, Clone, Copy, PartialEq, Eq, Structural)]
pub enum TaskType {
    Shell,
    Http,
    ReadFile,
    Composite,
}

impl TaskType {
    pub open spec fn spec_label(self) -> Seq<char> {
        match self {
            TaskType::Shell => "Shell"@,
            TaskType::Http => "Http"@,
            TaskType::ReadFile => "ReadFile"@,
            TaskType::Composite => "Composite"@,
        }
    }

    /// The variant's name, as listed to the user.
    pub fn label(&self) -> (r: String)
        ensures
            r@ == self.spec_label(),
    {
        match self {
            TaskType::Shell => String::from_str("Shell"),
            TaskType::Http => String::from_str("Http"),
            TaskType::ReadFile => String::from_str("ReadFile"),
            TaskType::Composite => String::from_str("Composite"),
        }
    }
}

/// A task that a `>>swiftcast <name>` directive runs.
#[derive(Debug, Clone)]
pub struct TaskDefinition {
    pub name: String,
    pub description: String,
    pub task_type: TaskType,
    /// Shell command (shell tasks).
    pub command: Option<String>,
    /// Working directory of the shell command.
    pub working_dir: Option<String>,
    /// URL to call (http tasks).
    pub url: Option<String>,
    /// HTTP method (http tasks); GET where absent.
    pub http_method: Option<String>,
    /// File to read (read_file tasks).
    pub file_path: Option<String>,
    /// Extra environment for the shell command.
    pub env: Option<Vec<(String, String)>>,
}

/// What a task may refer to through its placeholders.
#[derive(Debug, Clone)]
pub struct TaskContext {
    pub session_id: Option<String>,
    pub path: String,
    pub model: String,
    pub args: String,
}

/// The outcome of looking at a request for a directive.
#[derive(Debug, Clone)]
pub struct InterceptResult {
    /// Whether the proxy answers the request itself.
    pub intercepted: bool,
    /// The text of that answer.
    pub response_text: String,
    /// The task that the directive named.
    pub task_name: Option<String>,
}

pub open spec fn opt_string_view(o: Option<String>) -> Seq<char> {
    match o {
        Some(s) => s@,
        None => Seq::empty(),
    }
}

/// A template with `{args}`, `{session_id}`, `{path}` and `{model}` filled in, in that order.
pub open spec fn substituted(template: Seq<char>, ctx: TaskContext) -> Seq<char> {
    replace_all_spec(
        replace_all_spec(
            replace_all_spec(
                replace_all_spec(template, "{args}"@, ctx.args@),
                "{session_id}"@,
                opt_string_view(ctx.session_id),
            ),
            "{path}"@,
            ctx.path@,
        ),
        "{model}"@,
        ctx.model@,
    )
}

/// A file path with `{args}` and `{session_id}` filled in.
pub open spec fn substituted_path(template: Seq<char>, ctx: TaskContext) -> Seq<char> {
    replace_all_spec(
        replace_all_spec(template, "{args}"@, ctx.args@),
        "{session_id}"@,
        opt_string_view(ctx.session_id),
    )
}

/// Fill the placeholders of a shell command or URL.
pub fn substitute_placeholders(template: &str, ctx: &TaskContext) -> (r: String)
    ensures
        r@ == substituted(template@, *ctx),
{
    proof {
        reveal_strlit("{args}");
        reveal_strlit("{session_id}");
        reveal_strlit("{path}");
        reveal_strlit("{model}");
        reveal_strlit("");
    }
    let sid: &str = match &ctx.session_id {
        Some(s) => s.as_str(),
        None => "",
    };
    assert(sid@ =~= opt_string_view(ctx.session_id));
    let a = replace_all(template, "{args}", ctx.args.as_str());
    let b = replace_all(a.as_str(), "{session_id}", sid);
    let c = replace_all(b.as_str(), "{path}", ctx.path.as_str());
    replace_all(c.as_str(), "{model}", ctx.model.as_str())
}

/// Fill the placeholders of a file path.
pub fn substitute_path_placeholders(template: &str, ctx: &TaskContext) -> (r: String)
    ensures
        r@ == substituted_path(template@, *ctx),
{
    proof {
        reveal_strlit("{args}");
        reveal_strlit("{session_id}");
        reveal_strlit("");
    }
    let sid: &str = match &ctx.session_id {
        Some(s) => s.as_str(),
        None => "",
    };
    assert(sid@ =~= opt_string_view(ctx.session_id));
    let a = replace_all(template, "{args}", ctx.args.as_str());
    replace_all(a.as_str(), "{session_id}", sid)
}

/// Position of the task named `name`, if the catalog holds one.
pub open spec fn task_index(tasks: Seq<TaskDefinition>, name: Seq<char>) -> Option<int> {
    if exists|i: int| 0 <= i < tasks.len() && tasks[i].name@ == name {
        Some(choose|i: int| 0 <= i < tasks.len() && tasks[i].name@ == name)
    } else {
        None
    }
}

/// No two tasks of the catalog share a name.
pub open spec fn names_unique(tasks: Seq<TaskDefinition>) -> bool {
    forall|i: int, j: int|
        0 <= i < tasks.len() && 0 <= j < tasks.len() && tasks[i].name@ == tasks[j].name@ ==> i
            == j
}

fn find_task(tasks: &[TaskDefinition], name: &str) -> (r: Option<usize>)
    ensures
        match r {
            Some(i) => i < tasks@.len() && tasks@[i as int].name@ == name@,
            None => forall|i: int| 0 <= i < tasks@.len() ==> tasks@[i].name@ != name@,
        },
{
    let mut i: usize = 0;
    while i < tasks.len()
        invariant
            i <= tasks@.len(),
            forall|j: int| 0 <= j < i ==> tasks@[j].name@ != name@,
        decreases tasks.len() - i,
    {
        if str_eq(tasks[i].name.as_str(), name) {
            return Some(i);
        }
        i = i + 1;
    }
    None
}

/// What to do with a request, once its last user message is known.
#[derive(Debug, Clone)]
pub enum InterceptAction {
    /// No directive: forward the request.
    Pass,
    /// List the catalog.
    List,
    /// Reload the catalog from its file.
    Reload,
    /// The directive names no known task.
    Unknown(String),
    /// Run the task at this position with these arguments.
    Run(usize, String),
}

/// `r` is the way to answer `user_message` with the catalog `tasks`: pass it on
/// when it holds no directive; list or reload on those reserved names; else run
/// the named task with the arguments, or report it unknown.
pub open spec fn answers(user_message: Option<&str>, tasks: Seq<TaskDefinition>, r: InterceptAction) -> bool {
    match user_message {
        None => r is Pass,
        Some(m) => match parsed_command(m@) {
            None => r is Pass,
            Some((name, args)) => if name == "list"@ {
                r is List
            } else if name == "reload"@ {
                r is Reload
            } else {
                match task_index(tasks, name) {
                    Some(i) => r matches InterceptAction::Run(k, a) && k == i && a@ == args,
                    None => r matches InterceptAction::Unknown(n) && n@ == name,
                }
            },
        },
    }
}

/// Decide how to answer a user message against a catalog with unique names.
pub fn decide_intercept(user_message: Option<&str>, tasks: &[TaskDefinition]) -> (r: InterceptAction)
    requires
        names_unique(tasks@),
    ensures
        answers(user_message, tasks@, r),
{
    let m = match user_message {
        Some(m) => m,
        None => return InterceptAction::Pass,
    };
    match parse_task_command(m) {
        None => InterceptAction::Pass,
        Some((name, args)) => {
            if str_eq(name.as_str(), "list") {
                return InterceptAction::List;
            }
            if str_eq(name.as_str(), "reload") {
                return InterceptAction::Reload;
            }
            match find_task(tasks, name.as_str()) {
                Some(i) => {
                    proof {
                        let k = task_index(tasks@, name@);
                        assert(k is Some);
                        let c = k->0;
                        assert(tasks@[c].name@ == name@);
                    }
                    InterceptAction::Run(i, args)
                },
                None => InterceptAction::Unknown(name),
            }
        },
    }
}

pub open spec fn unknown_task_text(name: Seq<char>) -> Seq<char> {
    "Unknown task: '"@ + name + "'\n\nUse `>>swiftcast list` to see available tasks."@
}

/// The answer to a directive that names no known task.
pub fn unknown_task_response(name: &str) -> (r: String)
    ensures
        r@ == unknown_task_text(name@),
{
    let mut out = String::from_str("Unknown task: '");
    push_str(&mut out, name);
    push_str(&mut out, "'\n\nUse `>>swiftcast list` to see available tasks.");
    out
}

pub open spec fn task_result_text(
    name: Seq<char>,
    description: Seq<char>,
    result: Result<String, String>,
) -> Seq<char> {
    match result {
        Ok(out) => "## Task: "@ + name + "\n\n"@ + description + "\n\n---\n"@ + out@,
        Err(e) => "## Task Failed: "@ + name + "\n\nError: "@ + e@,
    }
}

/// The answer that reports how a task went.
pub fn task_result_response(task: &TaskDefinition, result: &Result<String, String>) -> (r: String)
    ensures
        r@ == task_result_text(task.name@, task.description@, *result),
{
    match result {
        Ok(out) => {
            let mut s = String::from_str("## Task: ");
            push_str(&mut s, task.name.as_str());
            push_str(&mut s, "\n\n");
            push_str(&mut s, task.description.as_str());
            push_str(&mut s, "\n\n---\n");
            push_str(&mut s, out.as_str());
            s
        },
        Err(e) => {
            let mut s = String::from_str("## Task Failed: ");
            push_str(&mut s, task.name.as_str());
            push_str(&mut s, "\n\nError: ");
            push_str(&mut s, e.as_str());
            s
        },
    }
}

pub open spec fn task_line(t: TaskDefinition) -> Seq<char> {
    "- **"@ + t.name@ + "**: "@ + t.description@ + " ("@ + t.task_type.spec_label() + ")"@
}

/// The catalog's lines, joined by newlines.
pub open spec fn task_lines(tasks: Seq<TaskDefinition>) -> Seq<char>
    decreases tasks.len(),
{
    if tasks.len() == 0 {
        Seq::empty()
    } else if tasks.len() == 1 {
        task_line(tasks[0])
    } else {
        task_lines(tasks.drop_last()) + "\n"@ + task_line(tasks.last())
    }
}

pub open spec fn list_text(tasks: Seq<TaskDefinition>) -> Seq<char> {
    "## Available Custom Tasks\n\n"@ + if tasks.len() == 0 {
        "No custom tasks defined.\n\nAdd tasks to ~/.sessioncast/tasks.json"@
    } else {
        task_lines(tasks)
    }
}

/// The answer to `>>swiftcast list`.
pub fn list_response(tasks: &[TaskDefinition]) -> (r: String)
    ensures
        r@ == list_text(tasks@),
{
    let mut s = String::from_str("## Available Custom Tasks\n\n");
    if tasks.len() == 0 {
        push_str(&mut s, "No custom tasks defined.\n\nAdd tasks to ~/.sessioncast/tasks.json");
        return s;
    }
    let ghost head = s@;
    let mut i: usize = 0;
    while i < tasks.len()
        invariant
            i <= tasks@.len(),
            tasks@.len() > 0,
            s@ == head + task_lines(tasks@.take(i as int)),
        decreases tasks.len() - i,
    {
        let ghost before = s@;
        if i > 0 {
            push_str(&mut s, "\n");
        }
        push_str(&mut s, "- **");
        push_str(&mut s, tasks[i].name.as_str());
        push_str(&mut s, "**: ");
        push_str(&mut s, tasks[i].description.as_str());
        push_str(&mut s, " (");
        let label = tasks[i].task_type.label();
        push_str(&mut s, label.as_str());
        push_str(&mut s, ")");
        proof {
            let next = tasks@.take(i + 1);
            assert(next.drop_last() =~= tasks@.take(i as int));
            assert(next.last() == tasks@[i as int]);
            if i == 0 {
                assert(tasks@.take(0) =~= Seq::<TaskDefinition>::empty());
            }
            assert(s@ =~= head + task_lines(next));
        }
        i = i + 1;
    }
    assert(tasks@.take(tasks@.len() as int) =~= tasks@);
    s
}

/// The catalog after adding `t`: it replaces the task of the same name, or
/// joins at the end.
pub open spec fn added(cat: Seq<TaskDefinition>, t: TaskDefinition) -> Seq<TaskDefinition> {
    match task_index(cat, t.name@) {
        Some(i) => cat.update(i, t),
        None => cat.push(t),
    }
}

/// The catalog made by adding `tasks` in order to an empty one.
pub open spec fn catalog_of(tasks: Seq<TaskDefinition>) -> Seq<TaskDefinition>
    decreases tasks.len(),
{
    if tasks.len() == 0 {
        Seq::empty()
    } else {
        added(catalog_of(tasks.drop_last()), tasks.last())
    }
}

/// The environment of a task names each variable once.
pub open spec fn env_unique(t: TaskDefinition) -> bool {
    match t.env {
        Some(e) => keys_unique(e@),
        None => true,
    }
}

/// Whether a task's environment names each variable once.
pub fn task_env_unique(t: &TaskDefinition) -> (r: bool)
    ensures
        r == env_unique(*t),
{
    match &t.env {
        Some(e) => pairs_keys_unique(e.as_slice()),
        None => true,
    }
}

/// The catalog of tasks that directives can run, one per name.
pub struct CustomTaskHook {
    tasks: Vec<TaskDefinition>,
}

impl CustomTaskHook {
    pub closed spec fn spec_tasks(&self) -> Seq<TaskDefinition> {
        self.tasks@
    }

    /// Task names are unique, and so are the variable names of each task's environment.
    pub open spec fn wf(&self) -> bool {
        &&& names_unique(self.spec_tasks())
        &&& forall|i: int| 0 <= i < self.spec_tasks().len() ==> env_unique(#[trigger] self.spec_tasks()[i])
    }

    /// An empty catalog.
    pub fn new() -> (r: Self)
        ensures
            r.wf(),
            r.spec_tasks().len() == 0,
    {
        CustomTaskHook { tasks: Vec::new() }
    }

    /// A catalog of the given tasks, added in order; of tasks that share a name
    /// the last one counts.
    pub fn from_tasks(tasks: Vec<TaskDefinition>) -> (r: Self)
        requires
            forall|i: int| 0 <= i < tasks@.len() ==> env_unique(#[trigger] tasks@[i]),
        ensures
            r.wf(),
            r.spec_tasks() == catalog_of(tasks@),
    {
        let ghost all = tasks@;
        let mut hook = CustomTaskHook::new();
        let mut rest = tasks;
        let n = rest.len();
        let mut c: usize = 0;
        assert(all.take(0) =~= Seq::<TaskDefinition>::empty());
        while rest.len() > 0
            invariant
                all.len() == n,
                c <= n,
                rest@ == all.skip(c as int),
                forall|i: int| 0 <= i < all.len() ==> env_unique(#[trigger] all[i]),
                hook.wf(),
                hook.spec_tasks() == catalog_of(all.take(c as int)),
            decreases rest.len(),
        {
            let t = rest.remove(0);
            proof {
                assert(t == all[c as int]);
                assert(all.take(c + 1).drop_last() =~= all.take(c as int));
                assert(all.take(c + 1).last() == t);
            }
            hook.add_task(t);
            c = c + 1;
            assert(rest@ =~= all.skip(c as int));
        }
        assert(all.take(c as int) =~= all);
        hook
    }

    /// The tasks of the catalog.
    pub fn list_tasks(&self) -> (r: &Vec<TaskDefinition>)
        ensures
            r@ == self.spec_tasks(),
    {
        &self.tasks
    }

    /// Add a task, replacing the one of the same name if there is one.
    pub fn add_task(&mut self, task: TaskDefinition)
        requires
            old(self).wf(),
            env_unique(task),
        ensures
            final(self).wf(),
            final(self).spec_tasks() == added(old(self).spec_tasks(), task),
    {
        match find_task(self.tasks.as_slice(), task.name.as_str()) {
            Some(i) => {
                proof {
                    let k = task_index(self.tasks@, task.name@)->0;
                    assert(self.tasks@[k].name@ == task.name@);
                    assert(k == i);
                }
                self.tasks[i] = task;
            },
            None => {
                self.tasks.push(task);
            },
        }
    }

    /// Remove the task of the given name, if there is one.
    pub fn remove_task(&mut self, name: &str)
        requires
            old(self).wf(),
        ensures
            final(self).wf(),
            match task_index(old(self).spec_tasks(), name@) {
                Some(i) => final(self).spec_tasks() == old(self).spec_tasks().remove(i),
                None => final(self).spec_tasks() == old(self).spec_tasks(),
            },
    {
        match find_task(self.tasks.as_slice(), name) {
            Some(i) => {
                proof {
                    let k = task_index(self.tasks@, name@)->0;
                    assert(self.tasks@[k].name@ == name@);
                    assert(k == i);
                }
                self.tasks.remove(i);
                proof {
                    let o = old(self).tasks@;
                    assert forall|a: int, b: int|
                        0 <= a < self.tasks@.len() && 0 <= b < self.tasks@.len()
                            && self.tasks@[a].name@ == self.tasks@[b].name@ implies a == b by {
                        let a2 = if a < i { a } else { a + 1 };
                        let b2 = if b < i { b } else { b + 1 };
                        assert(self.tasks@[a] == o[a2]);
                        assert(self.tasks@[b] == o[b2]);
                    }
                    assert forall|a: int| 0 <= a < self.tasks@.len() implies env_unique(#[trigger] self.tasks@[a]) by {
                        let a2 = if a < i { a } else { a + 1 };
                        assert(self.tasks@[a] == o[a2]);
                    }
                }
            },
            None => {},
        }
    }

    /// Decide how to answer a user message with this catalog.
    pub fn try_intercept(&self, user_message: Option<&str>) -> (r: InterceptAction)
        requires
            self.wf(),
        ensures
            answers(user_message, self.spec_tasks(), r),
    {
        decide_intercept(user_message, self.tasks.as_slice())
    }
}

/// `s` without white space at either end.
pub open spec fn trim_spec(s: Seq<char>) -> Seq<char> {
    let a = skip_white(s, 0);
    s.subrange(a, trim_end(s, a, s.len() as int))
}

/// Trim white space from both ends.
pub fn trim(s: &str) -> (r: String)
    ensures
        r@ == trim_spec(s@),
{
    let c = chars_of(s);
    let a = skip_white_exec(&c, 0);
    let b = trim_end_exec(&c, a, c.len());
    string_of_range(&c, a, b)
}

/// How an exit code is shown: `Some(n)`, or `None` for a process ended by a signal.
pub open spec fn exit_code_text(code: Option<i32>) -> Seq<char> {
    match code {
        Some(n) => "Some("@ + crate::webhook::int_text(n as int) + ")"@,
        None => "None"@,
    }
}

/// The output of a shell task: its trimmed standard output in a code block,
/// or, where it failed, the exit code and both outputs.
pub open spec fn shell_output_spec(success: bool, code: Option<i32>, stdout: Seq<char>, stderr: Seq<char>) -> Seq<char> {
    if success {
        "```\n"@ + trim_spec(stdout) + "\n```"@
    } else {
        "Command failed (exit code: "@ + exit_code_text(code) + "):\n```\n"@ + trim_spec(stdout) + "\n"@
            + trim_spec(stderr) + "\n```"@
    }
}

/// Render what a shell task printed.
pub fn shell_output_text(success: bool, code: Option<i32>, stdout: &str, stderr: &str) -> (r: String)
    ensures
        r@ == shell_output_spec(success, code, stdout@, stderr@),
{
    let out = trim(stdout);
    if success {
        let mut s = String::from_str("```\n");
        push_str(&mut s, out.as_str());
        push_str(&mut s, "\n```");
        return s;
    }
    let err = trim(stderr);
    let mut s = String::from_str("Command failed (exit code: ");
    match code {
        Some(n) => {
            push_str(&mut s, "Some(");
            let t = match crate::webhook::int_json(n as i64) {
                crate::json::Json::Number(_, t) => t,
                _ => String::new(),
            };
            push_str(&mut s, t.as_str());
            push_str(&mut s, ")");
        },
        None => push_str(&mut s, "None"),
    }
    push_str(&mut s, "):\n```\n");
    push_str(&mut s, out.as_str());
    push_str(&mut s, "\n");
    push_str(&mut s, err.as_str());
    push_str(&mut s, "\n```");
    s
}

/// The output of a file task: the file's text in a code block.
pub fn file_output_text(content: &str) -> (r: String)
    ensures
        r@ == "```\n"@ + content@ + "\n```"@,
{
    let mut s = String::from_str("```\n");
    push_str(&mut s, content);
    push_str(&mut s, "\n```");
    s
}

/// The output of an HTTP task: the request, the status line and the body.
pub fn http_output_text(method: &str, url: &str, status: &str, body: &str) -> (r: String)
    ensures
        r@ == "HTTP "@ + method@ + " "@ + url@ + "\nStatus: "@ + status@ + "\n\n"@ + body@,
{
    let mut s = String::from_str("HTTP ");
    push_str(&mut s, method);
    push_str(&mut s, " ");
    push_str(&mut s, url);
    push_str(&mut s, "\nStatus: ");
    push_str(&mut s, status);
    push_str(&mut s, "\n\n");
    push_str(&mut s, body);
    s
}

/// The output of a composite task, a kind that is declared but not carried out.
pub fn composite_output_text() -> (r: String)
    ensures
        r@ == "Composite tasks not yet implemented"@,
{
    String::from_str("Composite tasks not yet implemented")
}

} // verus!
