use vstd::prelude::*;
use vstd::slice::slice_to_vec;

use crate::json::{get_str, json_parse, json_text, member_is, parse_json, str_member, write_json, Json, JsonEntry};
use crate::store::copy_string;
use crate::text::{chars_of, push_char, str_eq, string_of_range};

verus! {

/// Longest excerpt of a user message that is kept whole, in characters.
pub const EXCERPT_CHARS: usize = 100;

/// A user message as kept in the session table: whole up to a hundred
/// characters, else its first ninety-seven and an ellipsis.
pub open spec fn excerpt_of(s: Seq<char>) -> Seq<char> {
    if s.len() <= 100 {
        s
    } else {
        s.take(97).push('\u{2026}')
    }
}

/// Shorten a user message for the session table.
pub fn excerpt(s: &str) -> (r: String)
    ensures
        r@ == excerpt_of(s@),
{
    let c = chars_of(s);
    if c.len() <= EXCERPT_CHARS {
        return string_of_range(&c, 0, c.len());
    }
    let mut out = string_of_range(&c, 0, 97);
    push_char(&mut out, '\u{2026}');
    out
}

/// The text of the first `text` part of `items` at or after `i`.
pub open spec fn first_text_part(items: Seq<Json>, i: int) -> Option<Seq<char>>
    decreases items.len() - i,
{
    if i < 0 || i >= items.len() {
        None
    } else if str_member(items[i], "type"@) == Some("text"@) && str_member(items[i], "text"@) is Some {
        str_member(items[i], "text"@)
    } else {
        first_text_part(items, i + 1)
    }
}

/// The text of a message's content: the string itself, or the first text part.
pub open spec fn content_text(content: Option<Json>) -> Option<Seq<char>> {
    match content {
        Some(Json::Str(s)) => Some(s@),
        Some(Json::Array(items)) => first_text_part(items@, 0),
        _ => None,
    }
}

/// Position of the last message at or before `i` whose role is `user`.
pub open spec fn last_user_index(msgs: Seq<Json>, i: int) -> Option<int>
    decreases i + 1,
{
    if i < 0 || i >= msgs.len() {
        None
    } else if str_member(msgs[i], "role"@) == Some("user"@) {
        Some(i)
    } else {
        last_user_index(msgs, i - 1)
    }
}

/// The messages of a request body.
pub open spec fn messages_of(body: Json) -> Option<Seq<Json>> {
    match body.spec_get("messages"@) {
        Some(Json::Array(m)) => Some(m@),
        _ => None,
    }
}

/// The text of the last user message of a request body.
pub open spec fn last_user_text(body: Json) -> Option<Seq<char>> {
    match messages_of(body) {
        Some(m) => match last_user_index(m, m.len() - 1) {
            Some(i) => content_text(m[i].spec_get("content"@)),
            None => None,
        },
        None => None,
    }
}

/// The text of the final message of a request body, when a user sent it.
pub open spec fn final_user_text(body: Json) -> Option<Seq<char>> {
    match messages_of(body) {
        Some(m) => if m.len() > 0 && str_member(m.last(), "role"@) == Some("user"@) {
            content_text(m.last().spec_get("content"@))
        } else {
            None
        },
        None => None,
    }
}

fn content_text_exec(content: Option<&Json>) -> (r: Option<String>)
    ensures
        match content_text(
            match content {
                Some(c) => Some(*c),
                None => None,
            },
        ) {
            Some(s) => r is Some && r->0@ == s,
            None => r is None,
        },
{
    match content {
        Some(Json::Str(s)) => Some(copy_string(s)),
        Some(Json::Array(items)) => {
            let mut i: usize = 0;
            while i < items.len()
                invariant
                    i <= items@.len(),
                    content_text(
                        match content {
                            Some(c) => Some(*c),
                            None => None,
                        },
                    ) == first_text_part(items@, 0),
                    first_text_part(items@, 0) == first_text_part(items@, i as int),
                decreases items.len() - i,
            {
                if member_is(&items[i], "type", "text") {
                    match get_str(&items[i], "text") {
                        Some(t) => {
                            return Some(copy_string(t));
                        },
                        None => {},
                    }
                }
                i = i + 1;
            }
            None
        },
        _ => None,
    }
}

fn messages_exec(body: &Json) -> (r: Option<&Vec<Json>>)
    ensures
        match messages_of(*body) {
            Some(m) => r is Some && r->0@ == m,
            None => r is None,
        },
{
    match body.get("messages") {
        Some(Json::Array(m)) => Some(m),
        _ => None,
    }
}

/// The text of the last user message of a request body.
pub fn last_user_message(body: &Json) -> (r: Option<String>)
    ensures
        match last_user_text(*body) {
            Some(s) => r is Some && r->0@ == s,
            None => r is None,
        },
{
    let msgs = match messages_exec(body) {
        Some(m) => m,
        None => return None,
    };
    let mut k: usize = msgs.len();
    while k > 0
        invariant
            k <= msgs@.len(),
            messages_of(*body) == Some(msgs@),
            last_user_index(msgs@, msgs@.len() - 1) == last_user_index(msgs@, k - 1),
        decreases k,
    {
        if member_is(&msgs[k - 1], "role", "user") {
            return content_text_exec(msgs[k - 1].get("content"));
        }
        k = k - 1;
    }
    None
}

/// The text of the final message of a request body, when a user sent it.
pub fn final_user_message(body: &Json) -> (r: Option<String>)
    ensures
        match final_user_text(*body) {
            Some(s) => r is Some && r->0@ == s,
            None => r is None,
        },
{
    let msgs = match messages_exec(body) {
        Some(m) => m,
        None => return None,
    };
    if msgs.len() == 0 {
        return None;
    }
    let last = &msgs[msgs.len() - 1];
    if member_is(last, "role", "user") {
        content_text_exec(last.get("content"))
    } else {
        None
    }
}

/// The text of the final message of a raw request body, when a user sent it.
pub fn final_user_message_of(body: &[u8]) -> (r: Option<String>)
    ensures
        match json_parse(body@) {
            Some(j) => match final_user_text(j) {
                Some(s) => r is Some && r->0@ == s,
                None => r is None,
            },
            None => r is None,
        },
{
    match parse_json(body) {
        Some(j) => final_user_message(&j),
        None => None,
    }
}

/// The model a request asks for and the excerpt of its last user message.
pub struct RequestInfo {
    pub model: String,
    pub last_message: Option<String>,
}

/// The model that a parsed body names: its `model` string, else `unknown`.
pub open spec fn model_of(body: Json) -> Seq<char> {
    match str_member(body, "model"@) {
        Some(m) => m,
        None => "unknown"@,
    }
}

/// What a request body tells: nothing where it is no JSON.
pub open spec fn request_info_of(body: Seq<u8>) -> (Seq<char>, Option<Seq<char>>) {
    match json_parse(body) {
        Some(j) => (
            model_of(j),
            match last_user_text(j) {
                Some(t) => Some(excerpt_of(t)),
                None => None,
            },
        ),
        None => (Seq::empty(), None),
    }
}

pub open spec fn info_view(i: RequestInfo) -> (Seq<char>, Option<Seq<char>>) {
    (
        i.model@,
        match i.last_message {
            Some(m) => Some(m@),
            None => None,
        },
    )
}

fn info_of_json(j: &Json) -> (r: RequestInfo)
    ensures
        info_view(r) == (
            model_of(*j),
            match last_user_text(*j) {
                Some(t) => Some(excerpt_of(t)),
                None => None,
            },
        ),
{
    let model = match get_str(j, "model") {
        Some(m) => copy_string(m),
        None => String::from_str("unknown"),
    };
    let last_message = match last_user_message(j) {
        Some(t) => Some(excerpt(t.as_str())),
        None => None,
    };
    RequestInfo { model, last_message }
}

/// Read the model and the last user message of a request body.
pub fn parse_request_info(body: &[u8]) -> (r: RequestInfo)
    ensures
        info_view(r) == request_info_of(body@),
{
    match parse_json(body) {
        Some(j) => info_of_json(&j),
        None => {
            proof {
                reveal_strlit("");
            }
            let r = RequestInfo { model: String::new(), last_message: None };
            r
        },
    }
}

/// `after` is `before` with its top-level `model` set to `m`: the first
/// `model` member changes its value, or one is appended where there is none;
/// every other member stays as it was.
pub open spec fn model_set(before: Json, after: Json, m: Seq<char>) -> bool {
    match (before, after) {
        (Json::Object(b), Json::Object(a)) => {
            let b = b@;
            let a = a@;
            match model_index(b, 0) {
                Some(i) => a.len() == b.len() && a[i].key@ == "model"@ && a[i].value.spec_str()
                    == Some(m) && forall|j: int| 0 <= j < b.len() && j != i ==> a[j] == b[j],
                None => a.len() == b.len() + 1 && a.drop_last() == b && a.last().key@ == "model"@
                    && a.last().value.spec_str() == Some(m),
            }
        },
        _ => false,
    }
}

/// Position of the first `model` member at or after `i`.
pub open spec fn model_index(entries: Seq<JsonEntry>, i: int) -> Option<int>
    decreases entries.len() - i,
{
    if i < 0 || i >= entries.len() {
        None
    } else if entries[i].key@ == "model"@ {
        Some(i)
    } else {
        model_index(entries, i + 1)
    }
}

proof fn lemma_model_index(entries: Seq<JsonEntry>, k: int)
    requires
        model_index(entries, k) is Some,
    ensures
        0 <= model_index(entries, k)->0 < entries.len(),
        entries[model_index(entries, k)->0].key@ == "model"@,
    decreases entries.len() - k,
{
    if 0 <= k < entries.len() && entries[k].key@ != "model"@ {
        lemma_model_index(entries, k + 1);
    }
}

/// Position of the first `model` member among an object's entries.
fn model_position(entries: &Vec<JsonEntry>) -> (r: Option<usize>)
    ensures
        match r {
            Some(i) => i < entries@.len() && model_index(entries@, 0) == Some(i as int),
            None => model_index(entries@, 0) is None,
        },
{
    let mut i: usize = 0;
    while i < entries.len()
        invariant
            i <= entries@.len(),
            model_index(entries@, 0) == model_index(entries@, i as int),
        decreases entries.len() - i,
    {
        if str_eq(entries[i].key.as_str(), "model") {
            return Some(i);
        }
        i = i + 1;
    }
    None
}

/// Set the top-level `model` of an object.
fn set_model(body: &mut Json, m: &str) -> (r: bool)
    ensures
        r == (*old(body) is Object),
        r ==> model_set(*old(body), *final(body), m@),
        !r ==> *final(body) == *old(body),
{
    match body {
        Json::Object(entries) => {
            let ghost b = entries@;
            match model_position(entries) {
                Some(i) => {
                    entries[i].value = Json::Str(String::from_str(m));
                    proof {
                        lemma_model_index(b, 0);
                        assert(entries@[i as int].key == b[i as int].key);
                    }
                },
                None => {
                    entries.push(
                        JsonEntry {
                            key: String::from_str("model"),
                            value: Json::Str(String::from_str(m)),
                        },
                    );
                    proof {
                        assert(entries@.drop_last() =~= b);
                    }
                },
            }
            true
        },
        _ => false,
    }
}

/// Rewrite a request body onto another model. The info reports the new model
/// and the excerpt read before the rewrite; a body that is no JSON object is
/// passed on unchanged.
pub fn override_model_in_body(body: &[u8], new_model: &str) -> (r: (Vec<u8>, RequestInfo))
    ensures
        match json_parse(body@) {
            Some(j) => if j is Object {
                exists|after: Json|
                    model_set(j, after, new_model@) && r.0@ == json_text(after) && info_view(r.1)
                        == (new_model@, request_info_of(body@).1)
            } else {
                r.0@ == body@ && info_view(r.1) == (new_model@, request_info_of(body@).1)
            },
            None => r.0@ == body@ && info_view(r.1) == (Seq::<char>::empty(), None::<Seq<char>>),
        },
{
    let mut j = match parse_json(body) {
        Some(j) => j,
        None => {
            proof {
                reveal_strlit("");
            }
            return (slice_to_vec(body), RequestInfo { model: String::new(), last_message: None });
        },
    };
    let info = info_of_json(&j);
    let ghost before = j;
    let model = String::from_str(new_model);
    let last_message = info.last_message;
    if set_model(&mut j, new_model) {
        let out = write_json(&j);
        assert(model_set(before, j, new_model@));
        (out, RequestInfo { model, last_message })
    } else {
        (slice_to_vec(body), RequestInfo { model, last_message })
    }
}

} // verus!
