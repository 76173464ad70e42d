use swiftcast::proxy::{
    build_upstream_headers, check_body_size, downstream_headers, extract_session_id,
    is_canonical_upstream, is_internal_mapping_request, prepare_upstream, upstream_url, ProxyError,
};
use swiftcast::request::{excerpt, parse_request_info};
use swiftcast::store::{
    hook_switches, Account, RouteError, RouteKind, SessionHookConfig, Store, StoreError,
    UsageLogEntry,
};
use swiftcast::body_within_limit;
use swiftcast::config::UsageStats;

fn h(name: &str, value: &str) -> (String, String) {
    (name.to_string(), value.to_string())
}

fn account(id: &str, base_url: &str, active: bool) -> Account {
    Account {
        id: id.to_string(),
        name: format!("account {}", id),
        base_url: base_url.to_string(),
        created_at: 1,
        is_active: active,
    }
}

#[test]
fn session_id_sources_in_order() {
    let hs = vec![h("sentry-trace", "t-1"), h("x-request-id", "r"), h("x-session-id", "s")];
    assert_eq!(extract_session_id(&hs), Some("s".to_string()));
    let hs = vec![h("sentry-trace", "t-1"), h("x-request-id", "r")];
    assert_eq!(extract_session_id(&hs), Some("r".to_string()));
    let hs = vec![h("sentry-trace", "abc123-span-9")];
    assert_eq!(extract_session_id(&hs), Some("abc123".to_string()));
    assert_eq!(extract_session_id(&[h("accept", "x")]), None);
}

#[test]
fn sentry_trace_without_dash_is_the_whole_id() {
    let hs = vec![h("sentry-trace", "abcdef")];
    assert_eq!(extract_session_id(&hs), Some("abcdef".to_string()));
}

#[test]
fn empty_session_id_is_no_session() {
    assert_eq!(extract_session_id(&[h("x-session-id", "")]), None);
    assert_eq!(extract_session_id(&[h("sentry-trace", "-span")]), None);
    let mut store = Store::new();
    store.create_account(account("A", "https://api.z.ai/v1", true)).unwrap();
    let r = store.resolve_route(Some(""), 5).unwrap();
    assert_eq!(r.kind, RouteKind::NoSession);
    assert!(store.sessions().is_empty());
}

#[test]
fn body_cap_boundary() {
    assert!(body_within_limit(100 * 1024 * 1024));
    assert!(!body_within_limit(100 * 1024 * 1024 + 1));
    assert_eq!(check_body_size(104857600), Ok(()));
    let err = check_body_size(104857601).unwrap_err();
    assert_eq!(err, ProxyError::PayloadTooLarge);
    assert_eq!(err.status_code(), 413);
}

#[test]
fn excerpt_boundary() {
    let hundred: String = "a".repeat(100);
    assert_eq!(excerpt(&hundred), hundred);
    let long: String = "b".repeat(101);
    let e = excerpt(&long);
    assert_eq!(e, format!("{}\u{2026}", "b".repeat(97)));
    assert_eq!(e.chars().count(), 98);
}

#[test]
fn new_session_route_scenario() {
    let mut store = Store::new();
    store.create_account(account("A", "https://api.z.ai/v1", true)).unwrap();
    let headers = vec![h("x-session-id", "s-1"), h("authorization", "Bearer T"), h("host", "localhost"), h("content-type", "application/json")];
    let sid = extract_session_id(&headers);
    assert_eq!(sid.as_deref(), Some("s-1"));
    let route = store.resolve_route(sid.as_deref(), 100).unwrap();
    assert_eq!(route.kind, RouteKind::New);
    assert_eq!(route.account_id, "A");
    assert_eq!(route.model_override, None);
    let row = store.get_session_config("s-1").expect("row created");
    assert_eq!(row.account_id, "A");
    assert_eq!(row.model_override, None);
    let body = br#"{"model":"glm-4","messages":[{"role":"user","content":"hi"}]}"#;
    let up = prepare_upstream("https://api.z.ai/v1", "/v1/messages", "", &headers, body, "k1", None);
    assert_eq!(up.url, "https://api.z.ai/v1/v1/messages");
    assert!(up.headers.contains(&h("x-api-key", "k1")));
    assert!(!up.headers.iter().any(|(n, _)| n == "authorization"));
    assert!(!up.headers.iter().any(|(n, _)| n == "host"));
    assert!(up.headers.contains(&h("content-type", "application/json")));
    assert_eq!(up.body, body.to_vec());
    assert_eq!(up.info.model, "glm-4");
    assert_eq!(up.info.last_message.as_deref(), Some("hi"));
}

#[test]
fn auth_header_policy_canonical() {
    let headers = vec![h("authorization", "Bearer T"), h("x-session-id", "s-1")];
    assert!(is_canonical_upstream("https://api.anthropic.com"));
    let out = build_upstream_headers(&headers, "https://api.anthropic.com", "k1");
    assert!(out.contains(&h("authorization", "Bearer T")));
    assert!(!out.iter().any(|(n, v)| n == "x-api-key" && v == "k1"));
}

#[test]
fn stored_key_replaces_inbound_credentials() {
    let headers = vec![h("x-api-key", "client"), h("authorization", "Bearer T"), h("accept-encoding", "gzip")];
    let out = build_upstream_headers(&headers, "https://api.z.ai/v1", "k1");
    assert_eq!(out, vec![h("x-api-key", "k1")]);
}

#[test]
fn model_override_scenario() {
    let mut store = Store::new();
    store.create_account(account("B", "https://api.z.ai/v1", false)).unwrap();
    store.create_account(account("A", "https://api.z.ai/v1", true)).unwrap();
    store.upsert_session_config("s-2", "B", Some("opus-4-20250514"), 10);
    let route = store.resolve_route(Some("s-2"), 11).unwrap();
    assert_eq!(route.kind, RouteKind::Existing);
    assert_eq!(route.account_id, "B");
    let body = br#"{"model":"sonnet-4-20250514","messages":[{"role":"user","content":"hi"}],"max_tokens":5}"#;
    let up = prepare_upstream("https://api.z.ai/v1", "/v1/messages", "", &[], body,
        "k", route.model_override.as_deref());
    let sent: serde_json::Value = serde_json::from_slice(&up.body).unwrap();
    let mut expected: serde_json::Value = serde_json::from_slice(body).unwrap();
    expected["model"] = serde_json::Value::String("opus-4-20250514".to_string());
    assert_eq!(sent, expected);
    assert_eq!(up.info.model, "opus-4-20250514");
}

#[test]
fn routing_twice_gives_the_same_account() {
    let mut store = Store::new();
    store.create_account(account("A", "u", true)).unwrap();
    let first = store.resolve_route(Some("s"), 1).unwrap();
    let second = store.resolve_route(Some("s"), 2).unwrap();
    assert_eq!(first.kind, RouteKind::New);
    assert_eq!(second.kind, RouteKind::Existing);
    assert_eq!(first.account_id, second.account_id);
    assert_eq!(first.model_override, second.model_override);
    assert_eq!(store.sessions().len(), 1);
}

#[test]
fn no_active_account_is_unavailable() {
    let mut store = Store::new();
    assert_eq!(store.resolve_route(Some("s"), 1).unwrap_err(), RouteError::NoActiveAccount);
    assert_eq!(store.resolve_route(None, 1).unwrap_err(), RouteError::NoActiveAccount);
    assert_eq!(ProxyError::from_route(RouteError::NoActiveAccount).status_code(), 503);
}

#[test]
fn switching_keeps_one_active_and_is_idempotent() {
    let mut store = Store::new();
    store.create_account(account("A", "u", true)).unwrap();
    store.create_account(account("B", "u", false)).unwrap();
    store.create_account(account("C", "u", true)).unwrap();
    assert_eq!(store.accounts().iter().filter(|a| a.is_active).count(), 1);
    store.switch_account("B").unwrap();
    let once: Vec<bool> = store.accounts().iter().map(|a| a.is_active).collect();
    store.switch_account("B").unwrap();
    let twice: Vec<bool> = store.accounts().iter().map(|a| a.is_active).collect();
    assert_eq!(once, vec![false, true, false]);
    assert_eq!(once, twice);
    assert_eq!(store.switch_account("Z"), Err(StoreError::NotFound));
    assert_eq!(store.create_account(account("A", "u", false)), Err(StoreError::Conflict));
}

#[test]
fn deleting_an_account_cascades() {
    let mut store = Store::new();
    store.create_account(account("A", "u", true)).unwrap();
    store.create_account(account("B", "u", false)).unwrap();
    store.resolve_route(Some("s"), 1).unwrap();
    store.log_usage(UsageLogEntry { timestamp: 1, account_id: "A".to_string(), model: "m".to_string(), input_tokens: 1, output_tokens: 2, session_id: Some("s".to_string()), status_code: 200 });
    store.log_usage(UsageLogEntry { timestamp: 1, account_id: "B".to_string(), model: "m".to_string(), input_tokens: 1, output_tokens: 2, session_id: None, status_code: 200 });
    store.delete_account("A").unwrap();
    assert_eq!(store.accounts().len(), 1);
    assert_eq!(store.usage_log().len(), 1);
    assert!(store.sessions().is_empty());
    assert_eq!(store.delete_account("A"), Err(StoreError::NotFound));
}

#[test]
fn retention_sweep() {
    let mut store = Store::new();
    store.create_account(account("A", "u", true)).unwrap();
    let day = 86400;
    let now = 1000 * day;
    store.upsert_session_config("old", "A", None, now - 91 * day);
    store.upsert_session_config("new", "A", None, now - 89 * day);
    store.log_usage(UsageLogEntry { timestamp: now - 366 * day, account_id: "A".to_string(), model: "m".to_string(), input_tokens: 0, output_tokens: 0, session_id: None, status_code: 200 });
    store.log_usage(UsageLogEntry { timestamp: now - day, account_id: "A".to_string(), model: "m".to_string(), input_tokens: 0, output_tokens: 0, session_id: None, status_code: 200 });
    let report = store.cleanup_old_data(now, 90, 365);
    assert_eq!(report.sessions_deleted, 1);
    assert_eq!(report.usage_deleted, 1);
    assert!(!report.needs_vacuum());
    assert!(store.get_session_config("new").is_some());
    assert!(store.get_session_config("old").is_none());
}

#[test]
fn session_activity_updates_keep_creation_time() {
    let mut store = Store::new();
    store.create_account(account("A", "u", true)).unwrap();
    store.upsert_session_config("s", "A", None, 5);
    store.update_session_activity("s", Some("hello"), 9);
    store.upsert_session_config("s", "A", Some("m"), 12);
    let row = store.get_session_config("s").unwrap();
    assert_eq!(row.created_at, 5);
    assert_eq!(row.last_activity_at, 12);
    assert_eq!(row.last_message.as_deref(), Some("hello"));
    assert_eq!(row.model_override.as_deref(), Some("m"));
    assert!(store.delete_session_config("s"));
    assert!(!store.delete_session_config("s"));
}

#[test]
fn request_info_reads_last_user_message() {
    let body = br#"{"model":"m","messages":[{"role":"user","content":"first"},{"role":"assistant","content":"x"},{"role":"user","content":[{"type":"image"},{"type":"text","text":"second"}]},{"role":"assistant","content":"y"}]}"#;
    let info = parse_request_info(body);
    assert_eq!(info.model, "m");
    assert_eq!(info.last_message.as_deref(), Some("second"));
    let info = parse_request_info(b"not json");
    assert_eq!(info.model, "");
    assert_eq!(info.last_message, None);
    let info = parse_request_info(br#"{"messages":[]}"#);
    assert_eq!(info.model, "unknown");
}

#[test]
fn url_and_response_headers() {
    assert_eq!(upstream_url("https://x/v1", "/v1/messages", "beta=true"), "https://x/v1/v1/messages?beta=true");
    let up = vec![h("content-type", "text/event-stream"), h("transfer-encoding", "chunked"), h("connection", "keep-alive")];
    assert_eq!(downstream_headers(&up), vec![h("content-type", "text/event-stream")]);
    assert!(is_internal_mapping_request("/_swiftcast/threadcast/mapping", "POST"));
    assert!(!is_internal_mapping_request("/_swiftcast/threadcast/mapping", "GET"));
}

#[test]
fn usage_totals_and_recent_rows() {
    let mut store = Store::new();
    for (i, (a, b)) in [(10, 1), (20, 2), (i64::MAX, 3)].iter().enumerate() {
        store.log_usage(UsageLogEntry { timestamp: i as i64, account_id: "A".to_string(), model: "m".to_string(), input_tokens: *a, output_tokens: *b, session_id: None, status_code: 200 });
    }
    assert_eq!(store.get_usage_stats(), UsageStats { request_count: 3, input_tokens: i64::MAX, output_tokens: 6 });
    let recent = store.get_recent_usage(2);
    assert_eq!(recent.len(), 2);
    assert_eq!(recent[0].timestamp, 2);
    assert_eq!(recent[1].timestamp, 1);
    assert_eq!(store.get_recent_usage(10).len(), 3);
}

#[test]
fn session_hook_switches() {
    let mut store = Store::new();
    let defaults = hook_switches(store.get_session_hooks("s"), false);
    assert!(defaults.api_logging && defaults.custom_tasks && !defaults.compaction_injection);
    store.set_session_hooks(SessionHookConfig {
        session_id: "s".to_string(),
        api_logging_enabled: false,
        compaction_injection_enabled: true,
        compaction_summarization_instructions: None,
        compaction_context_injection: None,
        custom_tasks_enabled: false,
    });
    let own = hook_switches(store.get_session_hooks("s"), false);
    assert!(!own.api_logging && own.compaction_injection && !own.custom_tasks);
    assert_eq!(store.get_all_session_hooks().len(), 1);
    assert!(store.delete_session_hooks("s"));
    assert!(store.get_session_hooks("s").is_none());
}

#[test]
fn usage_grouped_by_account_and_model() {
    let mut store = Store::new();
    let rows = [("A", "m1", 1), ("B", "m1", 2), ("A", "m2", 3), ("A", "m1", 4), ("C", "m3", 5)];
    for (acct, model, tokens) in rows.iter() {
        store.log_usage(UsageLogEntry { timestamp: 0, account_id: acct.to_string(), model: model.to_string(), input_tokens: *tokens, output_tokens: 1, session_id: None, status_code: 200 });
    }
    let by_account = store.get_usage_by_account();
    assert_eq!(by_account.len(), 3);
    assert_eq!(by_account[0].account_id, "A");
    assert_eq!(by_account[0].request_count, 3);
    assert_eq!(by_account[0].total_input_tokens, 8);
    assert_eq!(by_account[0].total_output_tokens, 3);
    let by_model = store.get_usage_by_model();
    assert_eq!(by_model[0].model, "m1");
    assert_eq!(by_model[0].request_count, 3);
    assert_eq!(by_model[0].total_input_tokens, 7);
    let top = store.usage_by(swiftcast::store::UsageKey::Account, 1);
    assert_eq!(top.len(), 1);
    assert_eq!(top[0].key, "A");
}

#[test]
fn active_sessions_report() {
    let mut store = Store::new();
    store.create_account(account("A", "u", true)).unwrap();
    let now = 1_000_000;
    store.upsert_session_config("old", "A", None, now - 2 * 86400);
    store.upsert_session_config("s1", "A", None, now - 100);
    store.upsert_session_config("s2", "Z", Some("m"), now - 10);
    store.log_usage(UsageLogEntry { timestamp: now, account_id: "A".to_string(), model: "m".to_string(), input_tokens: 5, output_tokens: 6, session_id: Some("s1".to_string()), status_code: 200 });
    let active = store.get_active_sessions(now);
    assert_eq!(active.len(), 2);
    assert_eq!(active[0].session_id, "s2");
    assert_eq!(active[0].account_name, "Unknown");
    assert_eq!(active[1].session_id, "s1");
    assert_eq!(active[1].account_name, "account A");
    assert_eq!((active[1].request_count, active[1].total_input_tokens, active[1].total_output_tokens), (1, 5, 6));
    let report = store.manual_cleanup(now, 1);
    assert_eq!(report.sessions_deleted, 1);
    assert_eq!(report.usage_deleted, 0);
    store.clear_usage_logs();
    assert!(store.usage_log().is_empty());
}

#[test]
fn configuration_values() {
    let mut store = Store::new();
    assert_eq!(store.get_config("proxy_port"), None);
    store.set_config("proxy_port", "32080");
    store.set_config("auto_start", "false");
    store.set_config("proxy_port", "40000");
    assert_eq!(store.get_config("proxy_port").as_deref(), Some("40000"));
    assert_eq!(store.get_config("auto_start").as_deref(), Some("false"));
}

#[test]
fn configuration_defaults() {
    let mut store = Store::new();
    store.set_config("proxy_port", "40001");
    store.init_default_config();
    assert_eq!(store.get_proxy_port(), 40001);
    assert!(store.get_auto_start());
    assert_eq!(store.get_config("hooks_retention_days").as_deref(), Some("30"));
    store.set_config("proxy_port", "70000");
    assert_eq!(store.get_proxy_port(), 32080);
    store.set_config("auto_start", "no");
    assert!(!store.get_auto_start());
}

#[test]
fn usage_grouped_by_session() {
    let mut store = Store::new();
    let rows = [(Some("a"), 10, 1), (None, 11, 2), (Some("b"), 12, 3), (Some("a"), 30, 4), (Some("b"), 5, 5)];
    for (sid, ts, tokens) in rows.iter() {
        store.log_usage(UsageLogEntry { timestamp: *ts, account_id: "A".to_string(), model: "m".to_string(), input_tokens: *tokens, output_tokens: 1, session_id: sid.map(|s| s.to_string()), status_code: 200 });
    }
    let by_session = store.get_usage_by_session();
    assert_eq!(by_session.len(), 2);
    assert_eq!(by_session[0].session_id, "a");
    assert_eq!((by_session[0].first_request, by_session[0].last_request), (10, 30));
    assert_eq!((by_session[0].request_count, by_session[0].total_input_tokens), (2, 5));
    assert_eq!(by_session[1].session_id, "b");
    assert_eq!((by_session[1].first_request, by_session[1].last_request), (5, 12));
}

#[test]
fn usage_grouped_by_day() {
    let mut store = Store::new();
    let day = 86400;
    let rows = [(day + 5, 1), (day + 100, 2), (3 * day + 1, 4), (10, 8)];
    for (ts, tokens) in rows.iter() {
        store.log_usage(UsageLogEntry { timestamp: *ts, account_id: "A".to_string(), model: "m".to_string(), input_tokens: *tokens, output_tokens: 1, session_id: None, status_code: 200 });
    }
    let daily = store.get_daily_usage(4 * day, 3, 0);
    assert_eq!(daily.len(), 2);
    assert_eq!(daily[0].date, "1970-01-04");
    assert_eq!((daily[0].request_count, daily[0].total_input_tokens), (1, 4));
    assert_eq!(daily[1].date, "1970-01-02");
    assert_eq!((daily[1].request_count, daily[1].total_input_tokens), (2, 3));
    let shifted = store.get_daily_usage(4 * day, 10, -3600);
    assert_eq!(shifted.last().unwrap().date, "1969-12-31");
}
