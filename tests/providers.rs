use swiftcast::context::{RequestContext, ResponseBuilder, ResponseContext, HookLogEntry};
use swiftcast::context_provider::{
    combine_contexts, default_method, default_timeout, extract_json_path, format_output,
    ContextProviderManager, HttpConfig, HttpContextProvider, ProviderConfig, ProviderMeta,
    Registration,
};
use swiftcast::file_logger::{is_log_file, session_dir_emptied, FileLoggerHook};
use swiftcast::json::{Json, JsonEntry};

fn provider_config(name: &str, kind: &str, enabled: bool, url: &str, vars: Vec<(String, String)>) -> ProviderConfig {
    ProviderConfig {
        provider: ProviderMeta { name: name.to_string(), enabled, provider_type: kind.to_string() },
        http: Some(HttpConfig { method: "GET".to_string(), url: url.to_string(), timeout_secs: 5, headers: vec![] }),
        response: None,
        output: None,
        variables: vars,
    }
}

fn obj(entries: Vec<(&str, Json)>) -> Json {
    Json::Object(entries.into_iter().map(|(k, v)| JsonEntry { key: k.to_string(), value: v }).collect())
}

fn s(x: &str) -> Json {
    Json::Str(x.to_string())
}

#[test]
fn test_substitute_variables() {
    let config = provider_config(
        "test",
        "http",
        true,
        "http://example.com/${workspace_id}/data",
        vec![("workspace_id".to_string(), "abc123".to_string())],
    );
    let provider = HttpContextProvider::new(config).ok().unwrap();
    let result = provider.substitute_variables("http://example.com/${workspace_id}/data", &[]);
    assert_eq!(result, "http://example.com/abc123/data");
}

#[test]
fn test_extract_json_path() {
    let json = obj(vec![(
        "data",
        obj(vec![(
            "knowledge",
            obj(vec![
                ("topic1", obj(vec![("summary", s("Summary 1"))])),
                ("topic2", obj(vec![("summary", s("Summary 2"))])),
            ]),
        )]),
    )]);
    let result = extract_json_path(&json, "data.knowledge");
    assert!(result.is_some());
    assert!(matches!(result.unwrap(), Json::Object(e) if e.len() == 2));
    assert!(extract_json_path(&json, "data.missing").is_none());
}

#[test]
fn environment_fills_what_variables_leave() {
    let provider = HttpContextProvider::new(provider_config("p", "http", true, "u", vec![])).ok().unwrap();
    let env = vec![("TOKEN".to_string(), "t0k".to_string())];
    assert_eq!(provider.substitute_variables("Bearer ${TOKEN} ${OTHER}", &env), "Bearer t0k ${OTHER}");
}

#[test]
fn output_formats() {
    let data = obj(vec![
        ("deployment", obj(vec![("summary", s("Deploy via SSH"))])),
        ("style", obj(vec![])),
    ]);
    let out = format_output(&data, "<k>\n{{#each this}}{{@key}}{{this.summary}}{{/each}}\n</k>");
    assert_eq!(out, "<k>\n\n</k>\n### deployment\nDeploy via SSH\n\n### style\n\n\n");
    let arr = Json::Array(vec![s("a"), Json::Null, s("b")]);
    assert_eq!(format_output(&arr, "{{data}}"), "a\nb");
    assert_eq!(format_output(&s("plain"), "{{data}}"), "plain");
    assert_eq!(format_output(&Json::Bool(true), "{{data}}"), "true");
}

#[test]
fn combined_context_skips_failures_and_empties() {
    let r = vec![Ok("A".to_string()), Err("down".to_string()), Ok(String::new()), Ok("B".to_string())];
    assert_eq!(combine_contexts(&r), Some("A\n\nB".to_string()));
    assert_eq!(combine_contexts(&[Err("x".to_string())]), None);
}

#[test]
fn manager_registration() {
    let mut m = ContextProviderManager::with_config_dir("/cfg".to_string());
    assert_eq!(m.provider_count(), 0);
    assert_eq!(m.register_provider(provider_config("a", "http", true, "u", vec![])), Ok(Registration::Added));
    assert_eq!(m.register_provider(provider_config("b", "http", false, "u", vec![])), Ok(Registration::Skipped));
    assert_eq!(
        m.register_provider(provider_config("c", "grpc", true, "u", vec![])),
        Err("Unknown provider type: grpc".to_string())
    );
    assert_eq!(m.provider_count(), 1);
    assert_eq!(default_method(), "GET");
    assert_eq!(default_timeout(), 5);
}

#[test]
fn test_session_dir() {
    let hook = FileLoggerHook::new("/tmp/logs".to_string());
    let session_dir = hook.get_session_dir("abc123def456ghi789jkl");
    assert_eq!(session_dir, "/tmp/logs/abc123def456ghi7");
}

#[test]
fn test_default_log_dir() {
    let dir = FileLoggerHook::default_log_dir(Some("/home/u"));
    assert!(dir.contains(".sessioncast"));
    assert!(dir.ends_with("logs"));
}

#[test]
fn log_file_names() {
    let hook = FileLoggerHook::new("/l/".to_string()).with_retention_days(2);
    assert_eq!(
        hook.generate_filename("20250101_120000", "0123456789abcdef", 3, "glm-4.5/air:x"),
        "20250101_120000_01234567_3_glm-4_5_air_x.json"
    );
    assert_eq!(hook.get_session_dir("s"), "/l/s");
    assert!(hook.is_expired(0, 2 * 86400 + 1));
    assert!(!hook.is_expired(0, 2 * 86400));
}

#[test]
fn response_context_builders() {
    let r = ResponseContext::new(200, 7).with_duration(15).with_tokens(3, 4);
    assert!(r.is_success);
    assert_eq!(r.duration_ms, 15);
    assert_eq!((r.input_tokens, r.output_tokens), (3, 4));
    let e = r.with_error("bad".to_string());
    assert!(!e.is_success);
    assert_eq!(e.error_message.as_deref(), Some("bad"));
    assert!(!ResponseContext::new(404, 7).is_success);
    let mut b = ResponseBuilder::new(200, 1000);
    b.append_text("Hel");
    b.append_text("lo");
    b.set_tokens(12, 1);
    b.set_stop_reason("end_turn".to_string());
    let built = b.build(1250, 9);
    assert_eq!(built.response_text, "Hello");
    assert_eq!(built.duration_ms, 250);
    assert!(built.is_success);
    assert_eq!(built.stop_reason.as_deref(), Some("end_turn"));
    let req = RequestContext::new("rid".to_string(), None, "m".to_string(), "POST".to_string(),
        "/v1/messages".to_string(), Json::Null, 1, "t".to_string());
    assert_eq!(req.short_session_id(), None);
    let entry = HookLogEntry::from_contexts(req, built);
    assert_eq!(entry.session_id, "unknown");
    assert_eq!(entry.response.input_tokens, 12);
}

#[test]
fn log_cleanup_rules() {
    assert!(is_log_file("20250101_000000_abc_1_m.json"));
    assert!(!is_log_file(".json"));
    assert!(!is_log_file("notes.txt"));
    assert!(session_dir_emptied(2, 2));
    assert!(!session_dir_emptied(0, 0));
    assert!(!session_dir_emptied(3, 2));
}
