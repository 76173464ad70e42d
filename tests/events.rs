use swiftcast::json::Json;
use swiftcast::question_detector::{extract_options, extract_sentence, QuestionDetector};
use swiftcast::store::Store;
use swiftcast::webhook::{
    build_payload, int_json, mapping_forward_payload, mapping_forward_url, mapping_response,
    parse_mapping_request, UsageData, WebhookClient, WebhookEvent,
};

fn member<'a>(j: &'a Json, key: &str) -> Option<&'a Json> {
    j.get(key)
}

#[test]
fn sentence_around_a_match() {
    let text = "I found the bug. Should I proceed with the fix? Thanks";
    let start = text.find("Should").unwrap();
    let end = start + "Should I proceed".len();
    assert_eq!(extract_sentence(text, start, end), "Should I proceed with the fix?");
    assert_eq!(extract_sentence("  no boundary here ", 2, 4), "no boundary here");
}

#[test]
fn options_from_brackets() {
    assert_eq!(extract_options("Press [Y/N] to continue"), vec!["Y".to_string(), "N".to_string()]);
    assert_eq!(extract_options("pick [ a / b /  ] or [c]"), vec!["a".to_string(), "b".to_string()]);
    assert_eq!(extract_options("[] nothing [x"), vec!["Yes".to_string(), "No".to_string()]);
    assert_eq!(extract_options("no list"), vec!["Yes".to_string(), "No".to_string()]);
}

#[test]
fn detector_reports_and_clears() {
    let mut d = QuestionDetector::new();
    d.push_text("Done. Do you want ");
    d.push_text("me to continue? [yes/no]");
    let buf = d.buffer().clone();
    let start = buf.find("Do you").unwrap();
    let q = d.report_match(start, start + 11);
    assert_eq!(q.question, "Do you want me to continue?");
    assert_eq!(q.context, "Done.");
    assert_eq!(q.options, vec!["yes".to_string(), "no".to_string()]);
    assert!(d.buffer().is_empty());
    d.push_text("All done. Should I proceed with the deploy? [y/n]");
    let q = d.detect().expect("a question is found");
    assert_eq!(q.question, "Should I proceed with the deploy?");
    assert_eq!(q.options, vec!["y".to_string(), "n".to_string()]);
    d.push_text("Nothing to ask here.");
    assert!(d.detect().is_none());
    d.reset();
    let long: String = "x".repeat(5000);
    d.push_text(&long);
    assert_eq!(d.buffer().chars().count(), 4096);
}

#[test]
fn webhook_endpoint_and_payload() {
    let mut c = WebhookClient::new();
    assert!(!c.is_enabled());
    assert_eq!(c.endpoint(), None);
    c.configure(Some("http://tracker:21000".to_string()), true);
    assert_eq!(c.endpoint().as_deref(), Some("http://tracker:21000/api/webhooks/swiftcast"));
    let usage = UsageData { model: "glm-4".to_string(), input_tokens: 12, output_tokens: 1, response_summary: None };
    let p = build_payload(WebhookEvent::UsageLogged, &Some("T-1".to_string()), "s-1", 1700000000, usage.to_json());
    assert!(matches!(member(&p, "event"), Some(Json::Str(e)) if e == "usage_logged"));
    assert!(matches!(member(&p, "todo_id"), Some(Json::Str(t)) if t == "T-1"));
    assert!(matches!(member(&p, "timestamp"), Some(Json::Number(Some(1700000000), t)) if t == "1700000000"));
    let data = member(&p, "data").unwrap();
    assert!(matches!(member(data, "input_tokens"), Some(Json::Number(Some(12), _))));
    assert!(member(data, "response_summary").is_none());
    let p = build_payload(WebhookEvent::SessionComplete, &None, "s", -5, Json::Null);
    assert!(matches!(member(&p, "todo_id"), Some(Json::Null)));
    assert!(matches!(int_json(-5), Json::Number(Some(-5), t) if t == "-5"));
}

#[test]
fn mapping_registration() {
    let m = parse_mapping_request(br#"{"session_id":"s-1","todo_id":"T-9","mission_id":"M"}"#).unwrap();
    assert_eq!((m.session_id.as_str(), m.todo_id.as_str(), m.mission_id.as_deref()), ("s-1", "T-9", Some("M")));
    let m = parse_mapping_request(br#"{"session_id":"s-1","todo_id":"T-9"}"#).unwrap();
    assert_eq!(m.mission_id, None);
    assert!(parse_mapping_request(br#"{"session_id":"s-1"}"#).is_none());
    assert!(parse_mapping_request(br#"{"session_id":"s","todo_id":"t","mission_id":3}"#).is_none());
    assert!(parse_mapping_request(b"nope").is_none());
    assert_eq!(mapping_forward_url(None), "http://localhost:21000/api/webhooks/session-mapping");
    let f = mapping_forward_payload("s-1", "T-9");
    assert!(matches!(member(&f, "args"), Some(Json::Str(a)) if a == "--todo-id=T-9"));
    let r = mapping_response("s-1", "T-9");
    assert!(matches!(member(&r, "success"), Some(Json::Bool(true))));

    let mut store = Store::new();
    store.save_mapping("s-1", "T-1", None);
    store.save_mapping("s-2", "T-1", Some("M"));
    store.save_mapping("s-1", "T-2", None);
    assert_eq!(store.get_mapping_by_session("s-1"), Some(("T-2".to_string(), None)));
    assert_eq!(store.get_mapping_by_session("s-2"), Some(("T-1".to_string(), Some("M".to_string()))));
    assert_eq!(store.get_mapping_by_session("s-3"), None);
    assert_eq!(store.get_sessions_by_external_id("T-1"), vec!["s-2".to_string()]);
}

#[test]
fn option_lists_follow_the_bracket_pattern() {
    assert_eq!(extract_options("[abc"), vec!["Yes".to_string(), "No".to_string()]);
    assert_eq!(extract_options("[] [Y/N]"), vec!["Y".to_string(), "N".to_string()]);
    assert_eq!(extract_options("[a[b] c"), vec!["a[b".to_string()]);
}
