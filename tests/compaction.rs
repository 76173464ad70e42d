use swiftcast::registry::HookRegistry;
use swiftcast::compaction::{
    inject_context, inject_summarization_instructions, is_compacted_conversation,
    is_compaction_request, CompactionConfig, CompactionInjectorHook,
};

#[test]
fn test_is_compaction_request() {
    let body = r#"{"messages":[{"content":"Your task is to create a detailed summary of the conversation"}]}"#;
    assert!(is_compaction_request(body));

    let body = r#"{"messages":[{"content":"Hello world"}]}"#;
    assert!(!is_compaction_request(body));
}

#[test]
fn test_is_compacted_conversation() {
    let body = r#"This session is being continued from a previous conversation that ran out of context."#;
    assert!(is_compacted_conversation(body));
}

#[test]
fn test_inject_summarization_instructions() {
    let body = "Some text here. Please provide your summary based on the conversation so far, following this structure.";
    let instructions = "Always include Korean language preference.";

    let result = inject_summarization_instructions(body, instructions);

    assert!(result.contains("Additional Summarization Instructions"));
    assert!(result.contains("Always include Korean language preference"));
    assert!(result.contains("Please provide your summary"));
}

#[test]
fn test_inject_context_static_only() {
    let body = "This session is being continued from a previous conversation that ran out of context. Summary follows...";
    let context = "User prefers Korean responses.";

    let result = inject_context(body, Some(context), None);

    assert!(result.contains("Persistent Context"));
    assert!(result.contains("User prefers Korean responses"));
}

#[test]
fn test_inject_context_provider_only() {
    let body = "This session is being continued from a previous conversation that ran out of context. Summary follows...";
    let provider_ctx = "<project-knowledge>\n### deployment\nDeploy via SSH\n</project-knowledge>";

    let result = inject_context(body, None, Some(provider_ctx));

    assert!(result.contains("project-knowledge"));
    assert!(result.contains("Deploy via SSH"));
    assert!(!result.contains("Persistent Context"));
}

#[test]
fn test_inject_context_both() {
    let body = "This session is being continued from a previous conversation that ran out of context. Summary follows...";
    let static_ctx = "User prefers Korean.";
    let provider_ctx = "<knowledge>Test</knowledge>";

    let result = inject_context(body, Some(static_ctx), Some(provider_ctx));

    assert!(result.contains("knowledge"));
    assert!(result.contains("Persistent Context"));
    assert!(result.contains("User prefers Korean"));
}

#[test]
fn test_inject_context_empty() {
    let body = "This session is being continued from a previous conversation that ran out of context. Summary follows...";

    let result = inject_context(body, None, None);

    assert_eq!(result, body);
}

#[test]
fn instructions_go_right_before_the_marker() {
    let body = "Your task is to create a detailed summary of the conversation. Please provide your summary based on the conversation so far.";
    let hook = CompactionInjectorHook::new(CompactionConfig {
        enabled: true,
        summarization_instructions: Some("Prefer Korean.".to_string()),
        context_injection: None,
        context_providers_enabled: false,
    });
    let out = hook.modify_request_body(body, None).expect("body is rewritten");
    let block = "\n\n## Additional Summarization Instructions (IMPORTANT - Must be included in summary):\nPrefer Korean.\n\n";
    let expected = format!(
        "Your task is to create a detailed summary of the conversation. {}Please provide your summary based on the conversation so far.",
        block
    );
    assert_eq!(out, expected);
}

#[test]
fn instructions_are_appended_without_marker() {
    let out = inject_summarization_instructions("abc", "X");
    assert_eq!(
        out,
        "abc\n\n## Additional Summarization Instructions (IMPORTANT - Must be included in summary):\nX\n\n"
    );
}

#[test]
fn context_goes_right_after_the_marker() {
    let body = "Start. This session is being continued from a previous conversation that ran out of context. Rest";
    let out = inject_context(body, Some("S"), Some("P"));
    assert_eq!(
        out,
        "Start. This session is being continued from a previous conversation that ran out of context.\n\nP\n\n## Persistent Context (Always Remember):\nS\n Rest"
    );
}

#[test]
fn disabled_hook_changes_nothing() {
    let hook = CompactionInjectorHook::new(CompactionConfig {
        enabled: false,
        summarization_instructions: Some("x".to_string()),
        context_injection: Some("y".to_string()),
        context_providers_enabled: true,
    });
    let body = "Your task is to create a detailed summary of the conversation";
    assert!(hook.modify_request_body(body, None).is_none());
}

#[test]
fn empty_context_leaves_continuation_alone() {
    let hook = CompactionInjectorHook::new(CompactionConfig::default());
    let body = "This session is being continued from a previous conversation that ran out of context.";
    assert!(hook.modify_request_body(body, Some("")).is_none());
    assert!(hook.wants_provider_context(body));
    let out = hook.modify_request_body(body, Some("ctx")).expect("provider text is spliced");
    assert!(out.ends_with("context.\n\nctx"));
}

#[test]
fn registry_chains_request_rewrites_and_leaves_responses() {
    let mut reg = HookRegistry::new();
    reg.register_modify_hook(CompactionInjectorHook::new(CompactionConfig {
        enabled: true,
        summarization_instructions: Some("A".to_string()),
        context_injection: None,
        context_providers_enabled: false,
    }));
    let body = "Your task is to create a detailed summary of the conversation";
    let out = reg.apply_request_modifications(body, None).expect("rewritten");
    assert!(out.ends_with("A\n\n"));
    assert!(reg.apply_response_modifications("text").is_none());
    assert!(reg.observers_run(true));
    reg.set_enabled(false);
    assert!(!reg.observers_run(true));
    assert!(reg.apply_request_modifications(body, None).is_none());
}

#[test]
fn continuation_without_its_period_is_left_alone() {
    let hook = CompactionInjectorHook::new(CompactionConfig {
        enabled: true,
        summarization_instructions: None,
        context_injection: Some("ctx".to_string()),
        context_providers_enabled: true,
    });
    let body = "This session is being continued from a previous conversation that ran out of context";
    assert!(!is_compacted_conversation(body));
    assert!(!hook.wants_provider_context(body));
    assert!(hook.modify_request_body(body, Some("p")).is_none());
}
