use vstd::prelude::*;

use crate::text::{
    chars_of, contains_chars, contains_seq, occurs_at, find_seq, first_index, insert_chars, push_str, splice,
    string_of,
};

verus! {

/// Configuration of the compaction injector.
#[derive(Debug, Clone)]
pub struct CompactionConfig {
    /// Whether injection is enabled.
    pub enabled: bool,
    /// Instructions added to the summarization prompt.
    pub summarization_instructions: Option<String>,
    /// Static context spliced into a compacted conversation.
    pub context_injection: Option<String>,
    /// Whether context is also fetched from the context providers.
    pub context_providers_enabled: bool,
}

/// Default of `context_providers_enabled` when a stored configuration omits it.
pub fn default_providers_enabled() -> (r: bool)
    ensures
        r,
{
    true
}

impl Default for CompactionConfig {
    fn default() -> (r: Self)
        ensures
            r.enabled,
            r.summarization_instructions is None,
            r.context_injection is None,
            r.context_providers_enabled,
    {
        CompactionConfig {
            enabled: true,
            summarization_instructions: None,
            context_injection: None,
            context_providers_enabled: true,
        }
    }
}

/// The phrase that marks a summarization request.
pub open spec fn summary_request_phrase() -> Seq<char> {
    "Your task is to create a detailed summary of the conversation"@
}

/// The phrase before which summarization instructions go.
pub open spec fn summary_marker() -> Seq<char> {
    "Please provide your summary based on the conversation so far"@
}

/// The sentence that marks a conversation continued after compaction, and
/// after which context is spliced.
pub open spec fn continuation_marker() -> Seq<char> {
    "This session is being continued from a previous conversation that ran out of context."@
}

pub open spec fn instructions_heading() -> Seq<char> {
    "\n\n## Additional Summarization Instructions (IMPORTANT - Must be included in summary):\n"@
}

pub open spec fn persistent_heading() -> Seq<char> {
    "\n\n## Persistent Context (Always Remember):\n"@
}

pub open spec fn blank_line() -> Seq<char> {
    "\n\n"@
}

pub open spec fn newline() -> Seq<char> {
    "\n"@
}

/// The body with the summarization-instructions block inserted before the
/// marker, or appended at the end where the marker is absent.
pub open spec fn with_instructions(body: Seq<char>, instructions: Seq<char>) -> Seq<char> {
    if contains_seq(body, summary_marker()) {
        splice(
            body,
            first_index(body, summary_marker()),
            instructions_heading() + instructions + blank_line(),
        )
    } else {
        body + instructions_heading() + instructions + blank_line()
    }
}

/// The view of an optional string, empty where absent.
pub open spec fn opt_view(o: Option<&str>) -> Seq<char> {
    match o {
        Some(s) => s@,
        None => Seq::empty(),
    }
}

/// The block spliced after the continuation marker: provider context first,
/// then the static context under its heading; each part only when non-empty.
pub open spec fn context_block(static_ctx: Seq<char>, provider_ctx: Seq<char>) -> Seq<char> {
    (if provider_ctx.len() > 0 {
        blank_line() + provider_ctx
    } else {
        Seq::empty()
    }) + (if static_ctx.len() > 0 {
        persistent_heading() + static_ctx + newline()
    } else {
        Seq::empty()
    })
}

/// The body with the context block spliced right after the continuation marker;
/// unchanged where the marker is absent or the block is empty.
pub open spec fn with_context(body: Seq<char>, static_ctx: Seq<char>, provider_ctx: Seq<char>) -> Seq<
    char,
> {
    let block = context_block(static_ctx, provider_ctx);
    if contains_seq(body, continuation_marker()) && block.len() > 0 {
        splice(body, first_index(body, continuation_marker()) + continuation_marker().len(), block)
    } else {
        body
    }
}

/// Whether the body is a request to summarize the conversation.
pub fn is_compaction_request(body: &str) -> (r: bool)
    ensures
        r == contains_seq(body@, summary_request_phrase()),
{
    let b = chars_of(body);
    let p = chars_of("Your task is to create a detailed summary of the conversation");
    contains_chars(&b, &p)
}

/// Whether the body continues a conversation that was compacted.
pub fn is_compacted_conversation(body: &str) -> (r: bool)
    ensures
        r == contains_seq(body@, continuation_marker()),
{
    let b = chars_of(body);
    let p = chars_of(
        "This session is being continued from a previous conversation that ran out of context.",
    );
    contains_chars(&b, &p)
}

/// Insert summarization instructions into a summarization request.
pub fn inject_summarization_instructions(body: &str, instructions: &str) -> (r: String)
    ensures
        r@ == with_instructions(body@, instructions@),
{
    let b = chars_of(body);
    let m = chars_of("Please provide your summary based on the conversation so far");
    match find_seq(&b, &m) {
        Some(pos) => {
            let mut ins = String::from_str(
                "\n\n## Additional Summarization Instructions (IMPORTANT - Must be included in summary):\n",
            );
            push_str(&mut ins, instructions);
            push_str(&mut ins, "\n\n");
            let ins_chars = chars_of(ins.as_str());
            insert_chars(&b, pos, &ins_chars)
        },
        None => {
            let mut out = String::from_str(body);
            push_str(
                &mut out,
                "\n\n## Additional Summarization Instructions (IMPORTANT - Must be included in summary):\n",
            );
            push_str(&mut out, instructions);
            push_str(&mut out, "\n\n");
            out
        },
    }
}

/// Splice persistent and provider context after the continuation marker.
pub fn inject_context(body: &str, static_context: Option<&str>, provider_context: Option<&str>) -> (r:
    String)
    ensures
        r@ == with_context(body@, opt_view(static_context), opt_view(provider_context)),
{
    let mut injection = String::new();
    match provider_context {
        Some(ctx) => {
            if !ctx.is_empty() {
                push_str(&mut injection, "\n\n");
                push_str(&mut injection, ctx);
            }
        },
        None => {},
    }
    match static_context {
        Some(ctx) => {
            if !ctx.is_empty() {
                push_str(&mut injection, "\n\n## Persistent Context (Always Remember):\n");
                push_str(&mut injection, ctx);
                push_str(&mut injection, "\n");
            }
        },
        None => {},
    }
    let b = chars_of(body);
    let m = chars_of(
        "This session is being continued from a previous conversation that ran out of context.",
    );
    let inj = chars_of(injection.as_str());
    match find_seq(&b, &m) {
        Some(pos) => {
            assert(occurs_at(b@, m@, pos as int));
            let blen = b.len();
            assert(pos + m@.len() <= blen);
            if inj.len() == 0 {
                return string_of(&b);
            }
            insert_chars(&b, pos + m.len(), &inj)
        },
        None => string_of(&b),
    }
}

/// The view of an optional owned string, empty where absent.
pub open spec fn opt_string_view(o: Option<String>) -> Seq<char> {
    match o {
        Some(s) => s@,
        None => Seq::empty(),
    }
}

/// What the injector makes of a request body under `cfg`, given the text that
/// the context providers returned (empty where none): `None` leaves it as it is.
pub open spec fn rewritten_body(cfg: CompactionConfig, body: Seq<char>, provider_ctx: Seq<char>) -> Option<
    Seq<char>,
> {
    let instructions = opt_string_view(cfg.summarization_instructions);
    let static_ctx = opt_string_view(cfg.context_injection);
    if !cfg.enabled {
        None
    } else if contains_seq(body, summary_request_phrase()) && instructions.len() > 0 {
        Some(with_instructions(body, instructions))
    } else if contains_seq(body, continuation_marker()) && context_block(
        static_ctx,
        provider_ctx,
    ).len() > 0 {
        Some(with_context(body, static_ctx, provider_ctx))
    } else {
        None
    }
}

/// The request-body mutator that feeds instructions and context into compaction.
pub struct CompactionInjectorHook {
    config: CompactionConfig,
}

impl CompactionInjectorHook {
    pub closed spec fn spec_config(&self) -> CompactionConfig {
        self.config
    }

    pub fn new(config: CompactionConfig) -> (r: Self)
        ensures
            r.spec_config() == config,
    {
        CompactionInjectorHook { config }
    }

    pub fn get_config(&self) -> (r: &CompactionConfig)
        ensures
            *r == self.spec_config(),
    {
        &self.config
    }

    /// Swap in a new configuration.
    pub fn update_config(&mut self, config: CompactionConfig)
        ensures
            final(self).spec_config() == config,
    {
        self.config = config;
    }

    /// Response text passes through this hook untouched.
    pub fn modify_response_text(&self, text: &str) -> (r: Option<String>)
        ensures
            r is None,
    {
        None
    }

    /// Whether the context providers should be asked before `body` is rewritten.
    pub fn wants_provider_context(&self, body: &str) -> (r: bool)
        ensures
            r == (self.spec_config().enabled && self.spec_config().context_providers_enabled
                && contains_seq(body@, continuation_marker())),
    {
        self.config.enabled && self.config.context_providers_enabled && is_compacted_conversation(
            body,
        )
    }

    /// Rewrite a request body, given what the context providers returned.
    pub fn modify_request_body(&self, body: &str, provider_context: Option<&str>) -> (r: Option<
        String,
    >)
        ensures
            match rewritten_body(self.spec_config(), body@, opt_view(provider_context)) {
                Some(s) => r is Some && r->0@ == s,
                None => r is None,
            },
    {
        proof {
            reveal_strlit("");
        }
        if !self.config.enabled {
            return None;
        }
        let instructions: &str = match &self.config.summarization_instructions {
            Some(s) => s.as_str(),
            None => "",
        };
        if !instructions.is_empty() && is_compaction_request(body) {
            return Some(inject_summarization_instructions(body, instructions));
        }
        let static_ctx: &str = match &self.config.context_injection {
            Some(s) => s.as_str(),
            None => "",
        };
        let provider: &str = match provider_context {
            Some(s) => s,
            None => "",
        };
        if static_ctx.is_empty() && provider.is_empty() {
            return None;
        }
        if !is_compacted_conversation(body) {
            return None;
        }
        Some(inject_context(body, Some(static_ctx), Some(provider)))
    }
}

} // verus!
