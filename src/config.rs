use vstd::prelude::*;

use crate::json::{Json, JsonEntry};
use crate::text::{chars_of, contains_chars, contains_seq, decimal, decimal_string, push_str, str_eq};

verus! {

/// A model offered for an upstream.
#[derive(Debug, Clone)]
pub struct ModelInfo {
    pub id: String,
    pub name: String,
}

fn model(id: &str, name: &str) -> (r: ModelInfo)
    ensures
        r.id@ == id@,
        r.name@ == name@,
{
    ModelInfo { id: String::from_str(id), name: String::from_str(name) }
}

pub open spec fn model_ids(v: Seq<ModelInfo>) -> Seq<Seq<char>> {
    v.map_values(|m: ModelInfo| m.id@)
}

pub open spec fn anthropic_model_ids() -> Seq<Seq<char>> {
    seq![
        "sonnet-4-20250514"@,
        "opus-4-20250514"@,
        "3-5-haiku-20241022"@,
        "3-5-sonnet-20241022"@,
    ]
}

pub open spec fn glm_model_ids() -> Seq<Seq<char>> {
    seq!["glm-4"@, "glm-4-flash"@]
}

/// The models of the canonical provider.
pub fn get_anthropic_models() -> (r: Vec<ModelInfo>)
    ensures
        model_ids(r@) == anthropic_model_ids(),
{
    let r = vec![
        model("sonnet-4-20250514", "Sonnet 4"),
        model("opus-4-20250514", "Opus 4"),
        model("3-5-haiku-20241022", "3.5 Haiku"),
        model("3-5-sonnet-20241022", "3.5 Sonnet"),
    ];
    assert(model_ids(r@) =~= anthropic_model_ids());
    r
}

/// The models of the GLM provider.
pub fn get_glm_models() -> (r: Vec<ModelInfo>)
    ensures
        model_ids(r@) == glm_model_ids(),
{
    let r = vec![model("glm-4", "GLM-4"), model("glm-4-flash", "GLM-4 Flash")];
    assert(model_ids(r@) =~= glm_model_ids());
    r
}

/// The models to offer for an upstream base URL: GLM's for `z.ai` or `glm`
/// hosts, the canonical provider's otherwise.
pub fn get_available_models(base_url: &str) -> (r: Vec<ModelInfo>)
    ensures
        model_ids(r@) == if !contains_seq(base_url@, "anthropic.com"@) && (contains_seq(
            base_url@,
            "z.ai"@,
        ) || contains_seq(base_url@, "glm"@)) {
            glm_model_ids()
        } else {
            anthropic_model_ids()
        },
{
    let b = chars_of(base_url);
    if contains_chars(&b, &chars_of("anthropic.com")) {
        get_anthropic_models()
    } else if contains_chars(&b, &chars_of("z.ai")) || contains_chars(&b, &chars_of("glm")) {
        get_glm_models()
    } else {
        get_anthropic_models()
    }
}

/// Whether the proxy runs, and on which port.
#[derive(Debug, Clone, Copy)]
pub struct ProxyStatus {
    pub running: bool,
    pub port: u16,
}

/// Totals over the usage log.
#[derive(Debug, Clone, Copy, PartialEq, Eq, Structural)]
pub struct UsageStats {
    pub request_count: i64,
    pub input_tokens: i64,
    pub output_tokens: i64,
}

/// Settings of the application itself.
#[derive(Debug, Clone, Copy)]
pub struct AppConfig {
    pub proxy_port: u16,
    pub auto_start: bool,
}

/// A token found in the platform's credential store.
#[derive(Debug, Clone)]
pub struct ClaudeTokenInfo {
    pub found: bool,
    pub token: Option<String>,
    pub error: Option<String>,
}

/// What an automatic account scan found.
#[derive(Debug, Clone)]
pub struct ScanResult {
    pub found_accounts: Vec<String>,
    pub imported_count: usize,
    pub errors: Vec<String>,
}

/// The hook settings as the configuration store keeps them.
#[derive(Debug, Clone)]
pub struct HookConfig {
    pub hooks_enabled: bool,
    pub hooks_retention_days: u64,
    pub compaction_injection_enabled: bool,
    pub compaction_summarization_instructions: String,
    pub compaction_context_injection: String,
}

/// Per-session hook switches as the user sets them.
#[derive(Debug, Clone)]
pub struct SessionHookConfigInput {
    pub session_id: String,
    pub api_logging_enabled: bool,
    pub compaction_injection_enabled: bool,
    pub compaction_summarization_instructions: Option<String>,
    pub compaction_context_injection: Option<String>,
    pub custom_tasks_enabled: bool,
}

/// A session as shown to the user, with its usage totals.
#[derive(Debug, Clone)]
pub struct SessionDetail {
    pub session_id: String,
    pub account_id: String,
    pub account_name: String,
    pub model_override: Option<String>,
    pub last_message: Option<String>,
    pub created_at: i64,
    pub last_activity_at: i64,
    pub request_count: i64,
    pub total_input_tokens: i64,
    pub total_output_tokens: i64,
}

/// The value of a decimal numeral, if `s` is one (digits only, at least one).
pub open spec fn numeral_value(s: Seq<char>) -> Option<nat>
    decreases s.len(),
{
    if s.len() == 0 {
        None
    } else if !('0' <= s.last() && s.last() <= '9') {
        None
    } else if s.len() == 1 {
        Some((s.last() as nat - '0' as nat) as nat)
    } else {
        match numeral_value(s.drop_last()) {
            Some(v) => Some(v * 10 + (s.last() as nat - '0' as nat) as nat),
            None => None,
        }
    }
}

/// Read a decimal numeral that fits in `u64`.
pub fn parse_u64(s: &str) -> (r: Option<u64>)
    ensures
        match r {
            Some(v) => numeral_value(s@) == Some(v as nat),
            None => numeral_value(s@) is None || numeral_value(s@)->0 > u64::MAX,
        },
{
    let c = chars_of(s);
    if c.len() == 0 {
        return None;
    }
    let mut v: u64 = 0;
    let mut i: usize = 0;
    while i < c.len()
        invariant
            0 < c@.len(),
            c@ == s@,
            i <= c@.len(),
            i > 0 ==> numeral_value(c@.take(i as int)) == Some(v as nat),
            i == 0 ==> v == 0,
        decreases c.len() - i,
    {
        let ch = c[i];
        proof {
            assert(c@.take(i + 1).drop_last() =~= c@.take(i as int));
            assert(c@.take(i + 1).last() == ch);
        }
        if !('0' <= ch && ch <= '9') {
            proof {
                lemma_numeral_prefix_none(c@, i as int + 1);
            }
            return None;
        }
        let d = (ch as u32 - '0' as u32) as u64;
        if v > (u64::MAX - d) / 10 {
            proof {
                lemma_numeral_prefix_big(c@, i as int + 1, (v * 10 + d) as nat);
            }
            return None;
        }
        v = v * 10 + d;
        i = i + 1;
    }
    assert(c@.take(c@.len() as int) =~= c@);
    Some(v)
}

proof fn lemma_numeral_prefix_none(s: Seq<char>, k: int)
    requires
        0 < k <= s.len(),
        numeral_value(s.take(k)) is None,
    ensures
        numeral_value(s) is None,
    decreases s.len() - k,
{
    if k < s.len() {
        assert(s.take(k + 1).drop_last() =~= s.take(k));
        lemma_numeral_prefix_none(s, k + 1);
    } else {
        assert(s.take(k) =~= s);
    }
}

proof fn lemma_numeral_prefix_big(s: Seq<char>, k: int, lo: nat)
    requires
        0 < k <= s.len(),
        numeral_value(s.take(k)) is None || numeral_value(s.take(k))->0 >= lo,
        lo > u64::MAX,
    ensures
        numeral_value(s) is None || numeral_value(s)->0 > u64::MAX,
    decreases s.len() - k,
{
    if k < s.len() {
        assert(s.take(k + 1).drop_last() =~= s.take(k));
        lemma_numeral_prefix_big(s, k + 1, lo);
    } else {
        assert(s.take(k) =~= s);
    }
}

/// A flag as the configuration store keeps it: `true` is on, anything else off;
/// absent means the default.
pub open spec fn flag_of(v: Option<Seq<char>>, default: bool) -> bool {
    match v {
        Some(s) => s == "true"@,
        None => default,
    }
}

fn flag(v: Option<&str>, default: bool) -> (r: bool)
    ensures
        r == flag_of(
            match v {
                Some(s) => Some(s@),
                None => None,
            },
            default,
        ),
{
    match v {
        Some(s) => str_eq(s, "true"),
        None => default,
    }
}

pub open spec fn opt_str_view(v: Option<&str>) -> Option<Seq<char>> {
    match v {
        Some(s) => Some(s@),
        None => None,
    }
}

/// The hook settings from the stored values of `hooks_enabled`,
/// `hooks_retention_days`, `compaction_injection_enabled`,
/// `compaction_summarization_instructions` and `compaction_context_injection`.
pub fn hook_config_from(
    hooks_enabled: Option<&str>,
    retention_days: Option<&str>,
    compaction_enabled: Option<&str>,
    instructions: Option<&str>,
    context_injection: Option<&str>,
) -> (r: HookConfig)
    ensures
        r.hooks_enabled == flag_of(opt_str_view(hooks_enabled), true),
        r.hooks_retention_days == match retention_days {
            Some(s) => match numeral_value(s@) {
                Some(v) => if v <= u64::MAX {
                    v as u64
                } else {
                    30
                },
                None => 30,
            },
            None => 30,
        },
        r.compaction_injection_enabled == flag_of(opt_str_view(compaction_enabled), false),
        r.compaction_summarization_instructions@ == match instructions {
            Some(s) => s@,
            None => Seq::<char>::empty(),
        },
        r.compaction_context_injection@ == match context_injection {
            Some(s) => s@,
            None => Seq::<char>::empty(),
        },
{
    let days = match retention_days {
        Some(s) => match parse_u64(s) {
            Some(v) => v,
            None => 30,
        },
        None => 30,
    };
    HookConfig {
        hooks_enabled: flag(hooks_enabled, true),
        hooks_retention_days: days,
        compaction_injection_enabled: flag(compaction_enabled, false),
        compaction_summarization_instructions: match instructions {
            Some(s) => String::from_str(s),
            None => String::new(),
        },
        compaction_context_injection: match context_injection {
            Some(s) => String::from_str(s),
            None => String::new(),
        },
    }
}

/// The stored text of a flag.
pub fn flag_text(on: bool) -> (r: String)
    ensures
        r@ == if on {
            "true"@
        } else {
            "false"@
        },
{
    if on {
        String::from_str("true")
    } else {
        String::from_str("false")
    }
}

/// Whether a hook runs for a session: its own switch where it has one,
/// the global setting otherwise.
pub fn hook_enabled_for(session_override: Option<bool>, global: bool) -> (r: bool)
    ensures
        r == match session_override {
            Some(b) => b,
            None => global,
        },
{
    match session_override {
        Some(b) => b,
        None => global,
    }
}

/// The URL of the local proxy on `port`.
pub open spec fn proxy_url(port: u16) -> Seq<char> {
    "http://localhost:"@ + decimal(port as nat)
}

/// The client settings pointed at the proxy: `env.ANTHROPIC_BASE_URL` set on
/// an object, `env` created where missing. `None` where the settings, or
/// their `env`, are no object.
pub open spec fn settings_with_proxy(before: Json, after: Json, port: u16) -> bool {
    match (before, after) {
        (Json::Object(b), Json::Object(a)) => {
            let b = b@;
            let a = a@;
            match env_index(b, 0) {
                Some(i) => a.len() == b.len() && a[i].key@ == "env"@ && (forall|j: int|
                    0 <= j < b.len() && j != i ==> a[j] == b[j]) && match (b[i].value, a[i].value) {
                    (Json::Object(be), Json::Object(ae)) => base_url_set(be@, ae@, port),
                    _ => false,
                },
                None => a.len() == b.len() + 1 && a.drop_last() == b && a.last().key@ == "env"@
                    && match a.last().value {
                    Json::Object(ae) => base_url_set(Seq::empty(), ae@, port),
                    _ => false,
                },
            }
        },
        _ => false,
    }
}

/// `a` is `b` with `ANTHROPIC_BASE_URL` set to the proxy URL.
pub open spec fn base_url_set(b: Seq<JsonEntry>, a: Seq<JsonEntry>, port: u16) -> bool {
    match key_index(b, "ANTHROPIC_BASE_URL"@, 0) {
        Some(i) => a.len() == b.len() && a[i].key@ == "ANTHROPIC_BASE_URL"@ && a[i].value.spec_str()
            == Some(proxy_url(port)) && forall|j: int| 0 <= j < b.len() && j != i ==> a[j] == b[j],
        None => a.len() == b.len() + 1 && a.drop_last() == b && a.last().key@ == "ANTHROPIC_BASE_URL"@
            && a.last().value.spec_str() == Some(proxy_url(port)),
    }
}

/// Position of the first member named `key` at or after `i`.
pub open spec fn key_index(entries: Seq<JsonEntry>, key: Seq<char>, i: int) -> Option<int>
    decreases entries.len() - i,
{
    if i < 0 || i >= entries.len() {
        None
    } else if entries[i].key@ == key {
        Some(i)
    } else {
        key_index(entries, key, i + 1)
    }
}

pub open spec fn env_index(entries: Seq<JsonEntry>, i: int) -> Option<int> {
    key_index(entries, "env"@, i)
}

proof fn lemma_key_index(entries: Seq<JsonEntry>, key: Seq<char>, k: int)
    requires
        key_index(entries, key, k) is Some,
    ensures
        0 <= key_index(entries, key, k)->0 < entries.len(),
        entries[key_index(entries, key, k)->0].key@ == key,
    decreases entries.len() - k,
{
    if 0 <= k < entries.len() && entries[k].key@ != key {
        lemma_key_index(entries, key, k + 1);
    }
}

fn find_key(entries: &Vec<JsonEntry>, key: &str) -> (r: Option<usize>)
    ensures
        match r {
            Some(i) => i < entries@.len() && key_index(entries@, key@, 0) == Some(i as int),
            None => key_index(entries@, key@, 0) is None,
        },
{
    let mut i: usize = 0;
    while i < entries.len()
        invariant
            i <= entries@.len(),
            key_index(entries@, key@, 0) == key_index(entries@, key@, i as int),
        decreases entries.len() - i,
    {
        if str_eq(entries[i].key.as_str(), key) {
            return Some(i);
        }
        i = i + 1;
    }
    None
}

fn set_base_url(env: &mut Vec<JsonEntry>, port: u16)
    ensures
        base_url_set(old(env)@, final(env)@, port),
{
    let mut url = String::from_str("http://localhost:");
    let digits = decimal_string(port as u64);
    push_str(&mut url, digits.as_str());
    let ghost b = env@;
    match find_key(env, "ANTHROPIC_BASE_URL") {
        Some(i) => {
            env[i].value = Json::Str(url);
            proof {
                lemma_key_index(b, "ANTHROPIC_BASE_URL"@, 0);
                assert(env@[i as int].key == b[i as int].key);
            }
        },
        None => {
            env.push(JsonEntry { key: String::from_str("ANTHROPIC_BASE_URL"), value: Json::Str(url) });
            proof {
                assert(env@.drop_last() =~= b);
            }
        },
    }
}

/// Point the agent client's settings at the proxy on `port`.
pub fn point_settings_at_proxy(settings: &mut Json, port: u16) -> (r: bool)
    ensures
        r ==> settings_with_proxy(*old(settings), *final(settings), port),
        !r ==> *final(settings) == *old(settings),
        r <== (*old(settings) is Object && match env_index(old(settings)->Object_0@, 0) {
            Some(i) => old(settings)->Object_0@[i].value is Object,
            None => true,
        }),
{
    match settings {
        Json::Object(entries) => {
            let ghost b = entries@;
            match find_key(entries, "env") {
                Some(i) => {
                    proof {
                        lemma_key_index(b, "env"@, 0);
                    }
                    let is_obj = match &entries[i].value {
                        Json::Object(_) => true,
                        _ => false,
                    };
                    if !is_obj {
                        return false;
                    }
                    match &mut entries[i].value {
                        Json::Object(env) => {
                            set_base_url(env, port);
                        },
                        _ => {},
                    }
                    proof {
                        assert(entries@[i as int].key == b[i as int].key);
                    }
                    true
                },
                None => {
                    let mut env: Vec<JsonEntry> = Vec::new();
                    set_base_url(&mut env, port);
                    entries.push(JsonEntry { key: String::from_str("env"), value: Json::Object(env) });
                    proof {
                        assert(entries@.drop_last() =~= b);
                    }
                    true
                },
            }
        },
        _ => false,
    }
}

} // verus!
