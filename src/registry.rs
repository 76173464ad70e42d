use vstd::prelude::*;

use crate::compaction::{opt_view, rewritten_body, CompactionConfig, CompactionInjectorHook};

verus! {

/// A request body after the mutating hooks with configurations `cfgs` ran in
/// order, each seeing what the one before left, and whether any changed it.
pub open spec fn chain(cfgs: Seq<CompactionConfig>, body: Seq<char>, provider_ctx: Seq<char>) -> (Seq<char>, bool)
    decreases cfgs.len(),
{
    if cfgs.len() == 0 {
        (body, false)
    } else {
        let (b, m) = chain(cfgs.drop_last(), body, provider_ctx);
        match rewritten_body(cfgs.last(), b, provider_ctx) {
            Some(s) => (s, true),
            None => (b, m),
        }
    }
}

/// The hooks that may rewrite request bodies, applied in the order they were registered.
pub struct HookRegistry {
    enabled: bool,
    modify_hooks: Vec<CompactionInjectorHook>,
}

impl HookRegistry {
    pub closed spec fn spec_enabled(&self) -> bool {
        self.enabled
    }

    /// The configurations of the registered mutating hooks, in order.
    pub closed spec fn spec_configs(&self) -> Seq<CompactionConfig> {
        self.modify_hooks@.map_values(|h: CompactionInjectorHook| h.spec_config())
    }

    /// An enabled registry without hooks.
    pub fn new() -> (r: Self)
        ensures
            r.spec_enabled(),
            r.spec_configs().len() == 0,
    {
        HookRegistry { enabled: true, modify_hooks: Vec::new() }
    }

    pub fn set_enabled(&mut self, enabled: bool)
        ensures
            final(self).spec_enabled() == enabled,
            final(self).spec_configs() == old(self).spec_configs(),
    {
        self.enabled = enabled;
    }

    pub fn is_enabled(&self) -> (r: bool)
        ensures
            r == self.spec_enabled(),
    {
        self.enabled
    }

    /// Whether the observation hooks (the request log) run for a request: the
    /// registry is on and the session has not turned logging off.
    pub fn observers_run(&self, session_logging: bool) -> (r: bool)
        ensures
            r == (self.spec_enabled() && session_logging),
    {
        self.enabled && session_logging
    }

    /// Run the mutating hooks over response text in order, each seeing what
    /// the one before left; `None` where none changed it. The registered hooks
    /// leave response text as it is, so the text always comes back unchanged.
    pub fn apply_response_modifications(&self, text: &str) -> (r: Option<String>)
        ensures
            r is None,
    {
        if !self.enabled {
            return None;
        }
        let mut current = String::from_str(text);
        let mut modified = false;
        let mut i: usize = 0;
        while i < self.modify_hooks.len()
            invariant
                !modified,
            decreases self.modify_hooks.len() - i,
        {
            match self.modify_hooks[i].modify_response_text(current.as_str()) {
                Some(s) => {
                    current = s;
                    modified = true;
                },
                None => {},
            }
            i = i + 1;
        }
        if modified {
            Some(current)
        } else {
            None
        }
    }

    /// Register a mutating hook after those already there.
    pub fn register_modify_hook(&mut self, hook: CompactionInjectorHook)
        ensures
            final(self).spec_configs() == old(self).spec_configs().push(hook.spec_config()),
            final(self).spec_enabled() == old(self).spec_enabled(),
    {
        let ghost before = self.modify_hooks@;
        let ghost c = hook.spec_config();
        self.modify_hooks.push(hook);
        assert(self.modify_hooks@.map_values(|h: CompactionInjectorHook| h.spec_config()) =~= before.map_values(
            |h: CompactionInjectorHook| h.spec_config(),
        ).push(c));
    }

    pub fn modify_hook_count(&self) -> (r: usize)
        ensures
            r == self.spec_configs().len(),
    {
        self.modify_hooks.len()
    }

    /// Run the mutating hooks over a request body, given what the context
    /// providers returned; `None` where the registry is off or no hook changed it.
    pub fn apply_request_modifications(&self, body: &str, provider_context: Option<&str>) -> (r: Option<String>)
        ensures
            !self.spec_enabled() ==> r is None,
            self.spec_enabled() ==> match chain(self.spec_configs(), body@, opt_view(provider_context)) {
                (b, true) => r is Some && r->0@ == b,
                (_, false) => r is None,
            },
    {
        if !self.enabled {
            return None;
        }
        let ghost cfgs = self.spec_configs();
        let mut current = String::from_str(body);
        let mut modified = false;
        let mut i: usize = 0;
        assert(cfgs.take(0) =~= Seq::<CompactionConfig>::empty());
        while i < self.modify_hooks.len()
            invariant
                i <= self.modify_hooks@.len(),
                cfgs == self.spec_configs(),
                cfgs.len() == self.modify_hooks@.len(),
                chain(cfgs.take(i as int), body@, opt_view(provider_context)) == (current@, modified),
            decreases self.modify_hooks.len() - i,
        {
            proof {
                assert(cfgs.take(i + 1).drop_last() =~= cfgs.take(i as int));
                assert(cfgs.take(i + 1).last() == self.modify_hooks@[i as int].spec_config());
            }
            match self.modify_hooks[i].modify_request_body(current.as_str(), provider_context) {
                Some(s) => {
                    current = s;
                    modified = true;
                },
                None => {},
            }
            i = i + 1;
        }
        assert(cfgs.take(i as int) =~= cfgs);
        if modified {
            Some(current)
        } else {
            None
        }
    }
}

} // verus!
