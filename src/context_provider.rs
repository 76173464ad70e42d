use vstd::prelude::*;

use crate::custom_task::{replace_all, replace_all_spec, skip_white, skip_white_exec, trim_end, trim_end_exec};
use crate::json::{get_str, str_member, Json, JsonEntry};
use crate::store::copy_string;
use crate::text::{chars_of, keys_unique, pairs_keys_unique, push_str, str_eq, string_of_range};

verus! {

/// A context provider's definition, as read from its file.
pub struct ProviderConfig {
    pub provider: ProviderMeta,
    pub http: Option<HttpConfig>,
    pub response: Option<ResponseConfig>,
    pub output: Option<OutputConfig>,
    /// Values for `${name}` placeholders.
    pub variables: Vec<(String, String)>,
}

impl ProviderConfig {
    /// Variable names are unique, and so are header names, as in the tables
    /// of a definition file.
    pub open spec fn wf(&self) -> bool {
        &&& keys_unique(self.variables@)
        &&& match self.http {
            Some(h) => keys_unique(h.headers@),
            None => true,
        }
    }
}

pub struct ProviderMeta {
    pub name: String,
    pub enabled: bool,
    pub provider_type: String,
}

pub struct HttpConfig {
    pub method: String,
    pub url: String,
    pub timeout_secs: u64,
    pub headers: Vec<(String, String)>,
}

pub struct ResponseConfig {
    /// Dot-separated path to the part of the response that matters.
    pub path: Option<String>,
}

pub struct OutputConfig {
    pub template: String,
}

/// A provider is enabled unless its file says otherwise.
pub fn default_enabled() -> (r: bool)
    ensures
        r,
{
    true
}

/// Providers are fetched with GET unless their file says otherwise.
pub fn default_method() -> (r: String)
    ensures
        r@ == "GET"@,
{
    String::from_str("GET")
}

/// Seconds a provider fetch may take unless its file says otherwise.
pub fn default_timeout() -> (r: u64)
    ensures
        r == 5,
{
    5
}

/// The placeholder for a variable: `${name}`.
pub open spec fn placeholder(name: Seq<char>) -> Seq<char> {
    "${"@ + name + "}"@
}

/// `s` with each pair's placeholder replaced by its value, pair by pair in order.
pub open spec fn substituted_vars(s: Seq<char>, vars: Seq<(String, String)>) -> Seq<char>
    decreases vars.len(),
{
    if vars.len() == 0 {
        s
    } else {
        replace_all_spec(
            substituted_vars(s, vars.drop_last()),
            placeholder(vars.last().0@),
            vars.last().1@,
        )
    }
}

fn substitute_pairs(s: String, vars: &[(String, String)]) -> (r: String)
    ensures
        r@ == substituted_vars(s@, vars@),
{
    let mut out = s;
    let ghost start = out@;
    let mut i: usize = 0;
    while i < vars.len()
        invariant
            i <= vars@.len(),
            out@ == substituted_vars(start, vars@.take(i as int)),
        decreases vars.len() - i,
    {
        let mut pat = String::from_str("${");
        push_str(&mut pat, vars[i].0.as_str());
        push_str(&mut pat, "}");
        proof {
            reveal_strlit("${");
            reveal_strlit("}");
            assert(pat@.len() >= 3);
            assert(vars@.take(i + 1).drop_last() =~= vars@.take(i as int));
        }
        out = replace_all(out.as_str(), pat.as_str(), vars[i].1.as_str());
        i = i + 1;
    }
    assert(vars@.take(vars@.len() as int) =~= vars@);
    out
}

/// A provider that fetches its context over HTTP.
pub struct HttpContextProvider {
    config: ProviderConfig,
}

impl HttpContextProvider {
    pub closed spec fn spec_config(&self) -> &ProviderConfig {
        &self.config
    }

    /// A provider for a definition; one without an `http` table, or with a
    /// name given twice among its variables or headers, is refused.
    pub fn new(config: ProviderConfig) -> (r: Result<Self, String>)
        ensures
            (config.http is Some && config.wf()) <==> r is Ok,
            r is Ok ==> *r->Ok_0.spec_config() == config && r->Ok_0.spec_config().wf(),
            config.http is None ==> r->Err_0@ == "HTTP config is required for http provider"@,
            config.http is Some && !config.wf() ==> r->Err_0@ == "Duplicate names in provider definition"@,
    {
        let headers_ok = match &config.http {
            None => {
                return Err(String::from_str("HTTP config is required for http provider"));
            },
            Some(h) => pairs_keys_unique(h.headers.as_slice()),
        };
        if !headers_ok || !pairs_keys_unique(config.variables.as_slice()) {
            return Err(String::from_str("Duplicate names in provider definition"));
        }
        Ok(HttpContextProvider { config })
    }

    pub fn config(&self) -> (r: &ProviderConfig)
        ensures
            r == self.spec_config(),
    {
        &self.config
    }

    pub fn name(&self) -> (r: &String)
        ensures
            r == &self.spec_config().provider.name,
    {
        &self.config.provider.name
    }

    pub fn is_enabled(&self) -> (r: bool)
        ensures
            r == self.spec_config().provider.enabled,
    {
        self.config.provider.enabled
    }

    /// Fill `${name}` placeholders: first from the provider's variables, then
    /// from the process environment `env`.
    pub fn substitute_variables(&self, input: &str, env: &[(String, String)]) -> (r: String)
        ensures
            r@ == substituted_vars(substituted_vars(input@, self.spec_config().variables@), env@),
    {
        let first = substitute_pairs(String::from_str(input), self.config.variables.as_slice());
        substitute_pairs(first, env)
    }
}

/// The non-empty contexts among `results`, joined by blank lines.
pub open spec fn combined(results: Seq<Result<String, String>>) -> Seq<char>
    decreases results.len(),
{
    if results.len() == 0 {
        Seq::empty()
    } else {
        let rest = combined(results.drop_last());
        match results.last() {
            Ok(c) => if c@.len() == 0 {
                rest
            } else if rest.len() == 0 {
                c@
            } else {
                rest + "\n\n"@ + c@
            },
            Err(_) => rest,
        }
    }
}

/// Join what the providers returned: failures and empty texts are left out;
/// `None` where nothing is left.
pub fn combine_contexts(results: &[Result<String, String>]) -> (r: Option<String>)
    ensures
        match r {
            Some(s) => s@ == combined(results@) && s@.len() > 0,
            None => combined(results@).len() == 0,
        },
{
    let mut out = String::new();
    let mut i: usize = 0;
    while i < results.len()
        invariant
            i <= results@.len(),
            out@ == combined(results@.take(i as int)),
        decreases results.len() - i,
    {
        proof {
            assert(results@.take(i + 1).drop_last() =~= results@.take(i as int));
        }
        match &results[i] {
            Ok(c) => {
                if !c.as_str().is_empty() {
                    if !out.as_str().is_empty() {
                        push_str(&mut out, "\n\n");
                    }
                    push_str(&mut out, c.as_str());
                }
            },
            Err(_) => {},
        }
        i = i + 1;
    }
    assert(results@.take(results@.len() as int) =~= results@);
    if out.as_str().is_empty() {
        None
    } else {
        Some(out)
    }
}

/// The providers that compaction asks for context.
pub struct ContextProviderManager {
    providers: Vec<HttpContextProvider>,
    config_dir: String,
}

/// What became of a provider definition offered to the manager.
#[derive(Debug, Clone, Copy, PartialEq, Eq, Structural)]
pub enum Registration {
    /// It was added.
    Added,
    /// It is disabled and was skipped.
    Skipped,
}

impl ContextProviderManager {
    /// The loaded providers, in the order they were added.
    pub closed spec fn spec_providers(&self) -> Seq<HttpContextProvider> {
        self.providers@
    }

    pub open spec fn spec_count(&self) -> nat {
        self.spec_providers().len()
    }

    pub closed spec fn spec_config_dir(&self) -> Seq<char> {
        self.config_dir@
    }

    /// A manager without providers that reads definitions from `config_dir`.
    pub fn with_config_dir(config_dir: String) -> (r: Self)
        ensures
            r.spec_count() == 0,
            r.spec_config_dir() == config_dir@,
    {
        ContextProviderManager { providers: Vec::new(), config_dir }
    }

    pub fn config_dir(&self) -> (r: &String)
        ensures
            r@ == self.spec_config_dir(),
    {
        &self.config_dir
    }

    /// How many providers are loaded.
    pub fn provider_count(&self) -> (r: usize)
        ensures
            r == self.spec_count(),
    {
        self.providers.len()
    }

    /// Offer a definition: a disabled one is skipped, an `http` one is added,
    /// any other type is refused.
    pub fn register_provider(&mut self, config: ProviderConfig) -> (r: Result<Registration, String>)
        ensures
            final(self).spec_config_dir() == old(self).spec_config_dir(),
            !config.provider.enabled ==> r == Ok::<Registration, String>(Registration::Skipped)
                && final(self).spec_count() == old(self).spec_count(),
            config.provider.enabled && config.provider.provider_type@ == "http"@ && config.http is Some
                && config.wf() ==> r == Ok::<Registration, String>(Registration::Added) && final(self).spec_count()
                == old(self).spec_count() + 1,
            r is Err ==> final(self).spec_providers() == old(self).spec_providers(),
            r == Ok::<Registration, String>(Registration::Skipped) ==> final(self).spec_providers()
                == old(self).spec_providers(),
            r == Ok::<Registration, String>(Registration::Added) ==> final(self).spec_providers().drop_last()
                == old(self).spec_providers() && final(self).spec_count() == old(self).spec_count() + 1
                && *final(self).spec_providers().last().spec_config() == config,
            config.provider.enabled && config.provider.provider_type@ == "http"@ && !(config.http is Some
                && config.wf()) ==> r is Err,
            config.provider.enabled && config.provider.provider_type@ != "http"@ ==> r is Err
                && r->Err_0@ == "Unknown provider type: "@ + config.provider.provider_type@,
    {
        if !config.provider.enabled {
            return Ok(Registration::Skipped);
        }
        if !str_eq(config.provider.provider_type.as_str(), "http") {
            let mut msg = String::from_str("Unknown provider type: ");
            push_str(&mut msg, config.provider.provider_type.as_str());
            return Err(msg);
        }
        match HttpContextProvider::new(config) {
            Ok(p) => {
                let ghost before = self.providers@;
                self.providers.push(p);
                assert(self.providers@.drop_last() =~= before);
                Ok(Registration::Added)
            },
            Err(e) => Err(e),
        }
    }

    /// The enabled providers, in the order they were added.
    pub fn providers(&self) -> (r: &Vec<HttpContextProvider>)
        ensures
            r@ == self.spec_providers(),
    {
        &self.providers
    }
}

/// The member reached from `j` by the dot-separated keys of `p`, read from
/// position `i` on, the current key having begun at `seg`.
pub open spec fn walk_path(j: Json, p: Seq<char>, i: int, seg: int) -> Option<Json>
    decreases p.len() - i,
{
    if i >= p.len() {
        j.spec_get(p.subrange(seg, p.len() as int))
    } else if p[i] == '.' {
        match j.spec_get(p.subrange(seg, i)) {
            Some(x) => walk_path(x, p, i + 1, i + 1),
            None => None,
        }
    } else {
        walk_path(j, p, i + 1, seg)
    }
}

/// Follow a dot-separated path of keys into a document.
pub fn extract_json_path<'a>(json: &'a Json, path: &str) -> (r: Option<&'a Json>)
    ensures
        match walk_path(*json, path@, 0, 0) {
            Some(x) => r is Some && *r->0 == x,
            None => r is None,
        },
{
    let p = chars_of(path);
    let mut cur: &Json = json;
    let mut seg: usize = 0;
    let mut i: usize = 0;
    while i < p.len()
        invariant
            p@ == path@,
            seg <= i <= p@.len(),
            walk_path(*json, p@, 0, 0) == walk_path(*cur, p@, i as int, seg as int),
        decreases p.len() - i,
    {
        if p[i] == '.' {
            let key = string_of_range(&p, seg, i);
            match cur.get(key.as_str()) {
                Some(x) => {
                    cur = x;
                },
                None => {
                    return None;
                },
            }
            i = i + 1;
            seg = i;
        } else {
            i = i + 1;
        }
    }
    let key = string_of_range(&p, seg, p.len());
    cur.get(key.as_str())
}

/// How `serde_json` pretty-prints a document.
pub uninterp spec fn json_pretty(v: Json) -> Seq<char>;

/// Relies on `serde_json::to_string_pretty`: a document as indented JSON text.
#[verifier::external_body]
fn pretty_json(v: &Json) -> (r: String)
    ensures
        r@ == json_pretty(*v),
{
    serde_json::to_string_pretty(&crate::json::to_value(v)).unwrap_or_default()
}

/// A template's text once the per-item markers are taken out and it is trimmed.
pub open spec fn template_head(t: Seq<char>) -> Seq<char> {
    let c = replace_all_spec(
        replace_all_spec(
            replace_all_spec(replace_all_spec(t, "{{#each this}}"@, Seq::empty()), "{{/each}}"@, Seq::empty()),
            "{{@key}}"@,
            Seq::empty(),
        ),
        "{{this.summary}}"@,
        Seq::empty(),
    );
    let a = skip_white(c, 0);
    c.subrange(a, trim_end(c, a, c.len() as int))
}

/// One section per member: its key as a heading and its `summary` text.
pub open spec fn sections(entries: Seq<JsonEntry>) -> Seq<char>
    decreases entries.len(),
{
    if entries.len() == 0 {
        Seq::empty()
    } else {
        let e = entries.last();
        sections(entries.drop_last()) + "### "@ + e.key@ + "\n"@ + (match str_member(e.value, "summary"@) {
            Some(s) => s,
            None => Seq::empty(),
        }) + "\n\n"@
    }
}

/// The strings among `items`, joined by newlines.
pub open spec fn string_lines(items: Seq<Json>) -> Seq<char>
    decreases items.len(),
{
    if items.len() == 0 {
        Seq::empty()
    } else {
        let rest = string_lines(items.drop_last());
        match items.last() {
            Json::Str(s) => if has_string(items.drop_last()) {
                rest + "\n"@ + s@
            } else {
                s@
            },
            _ => rest,
        }
    }
}

pub open spec fn has_string(items: Seq<Json>) -> bool {
    exists|i: int| 0 <= i < items.len() && items[i] is Str
}

/// A provider's text for the data it fetched.
pub open spec fn formatted(data: Json, template: Seq<char>) -> Seq<char> {
    match data {
        Json::Object(entries) => template_head(template) + "\n"@ + sections(entries@),
        Json::Array(items) => string_lines(items@),
        Json::Str(s) => s@,
        _ => json_pretty(data),
    }
}

/// Render fetched data: an object as one section per member under the
/// template's head, an array as its strings one per line, a string as itself,
/// anything else as indented JSON.
pub fn format_output(data: &Json, template: &str) -> (r: String)
    ensures
        r@ == formatted(*data, template@),
{
    match data {
        Json::Object(entries) => {
            proof {
                reveal_strlit("{{#each this}}");
                reveal_strlit("{{/each}}");
                reveal_strlit("{{@key}}");
                reveal_strlit("{{this.summary}}");
                reveal_strlit("");
            }
            let a = replace_all(template, "{{#each this}}", "");
            let b = replace_all(a.as_str(), "{{/each}}", "");
            let c = replace_all(b.as_str(), "{{@key}}", "");
            let d = replace_all(c.as_str(), "{{this.summary}}", "");
            let dc = chars_of(d.as_str());
            let lo = skip_white_exec(&dc, 0);
            let hi = trim_end_exec(&dc, lo, dc.len());
            let mut out = string_of_range(&dc, lo, hi);
            push_str(&mut out, "\n");
            let ghost head = out@;
            assert(""@ =~= Seq::<char>::empty());
            assert(head == template_head(template@) + "\n"@);
            let mut i: usize = 0;
            while i < entries.len()
                invariant
                    i <= entries@.len(),
                    head == template_head(template@) + "\n"@,
                    match *data {
                        Json::Object(e) => e@ == entries@,
                        _ => false,
                    },
                    out@ == head + sections(entries@.take(i as int)),
                decreases entries.len() - i,
            {
                proof {
                    assert(entries@.take(i + 1).drop_last() =~= entries@.take(i as int));
                }
                push_str(&mut out, "### ");
                push_str(&mut out, entries[i].key.as_str());
                push_str(&mut out, "\n");
                match get_str(&entries[i].value, "summary") {
                    Some(s) => push_str(&mut out, s.as_str()),
                    None => {},
                }
                push_str(&mut out, "\n\n");
                proof {
                    reveal_strlit("");
                    assert(out@ =~= head + sections(entries@.take(i + 1)));
                }
                i = i + 1;
            }
            assert(entries@.take(entries@.len() as int) =~= entries@);
            out
        },
        Json::Array(items) => {
            let mut out = String::new();
            let mut any = false;
            let mut i: usize = 0;
            while i < items.len()
                invariant
                    i <= items@.len(),
                    match *data {
                        Json::Array(e) => e@ == items@,
                        _ => false,
                    },
                    out@ == string_lines(items@.take(i as int)),
                    any == has_string(items@.take(i as int)),
                    !any ==> out@ == Seq::<char>::empty(),
                decreases items.len() - i,
            {
                let ghost pre = items@.take(i as int);
                proof {
                    assert(items@.take(i + 1).drop_last() =~= pre);
                    assert(items@.take(i + 1).last() == items@[i as int]);
                }
                match &items[i] {
                    Json::Str(s) => {
                        if any {
                            push_str(&mut out, "\n");
                        }
                        push_str(&mut out, s.as_str());
                        any = true;
                        proof {
                            assert(items@.take(i + 1)[i as int] is Str);
                        }
                    },
                    _ => {
                        proof {
                            assert forall|k: int| 0 <= k < i + 1 && (#[trigger] items@.take(i + 1)[k]) is Str implies 0 <= k < i && pre[k] is Str by {
                                if k < i {
                                    assert(items@.take(i + 1)[k] == pre[k]);
                                }
                            }
                        }
                    },
                }
                proof {
                    if has_string(pre) {
                        let k = choose|k: int| 0 <= k < pre.len() && pre[k] is Str;
                        assert(items@.take(i + 1)[k] == pre[k]);
                    }
                }
                i = i + 1;
            }
            assert(items@.take(items@.len() as int) =~= items@);
            out
        },
        Json::Str(s) => copy_string(s),
        _ => pretty_json(data),
    }
}

} // verus!
