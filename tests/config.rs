use swiftcast::config::{
    flag_text, get_available_models, hook_config_from, hook_enabled_for, parse_u64,
    point_settings_at_proxy,
};
use swiftcast::json::{Json, JsonEntry};

#[test]
fn models_by_host() {
    let ids = |v: Vec<swiftcast::config::ModelInfo>| v.into_iter().map(|m| m.id).collect::<Vec<_>>();
    assert_eq!(ids(get_available_models("https://api.z.ai/v1")), vec!["glm-4", "glm-4-flash"]);
    assert_eq!(ids(get_available_models("https://api.anthropic.com")).len(), 4);
    assert_eq!(ids(get_available_models("https://other.example")).len(), 4);
}

#[test]
fn hook_settings_from_store_values() {
    let c = hook_config_from(None, None, None, None, None);
    assert!(c.hooks_enabled);
    assert_eq!(c.hooks_retention_days, 30);
    assert!(!c.compaction_injection_enabled);
    let c = hook_config_from(Some("false"), Some("7"), Some("true"), Some("i"), Some("x"));
    assert!(!c.hooks_enabled);
    assert_eq!(c.hooks_retention_days, 7);
    assert!(c.compaction_injection_enabled);
    assert_eq!(c.compaction_summarization_instructions, "i");
    assert_eq!(hook_config_from(None, Some("x7"), None, None, None).hooks_retention_days, 30);
    assert_eq!(parse_u64("18446744073709551615"), Some(u64::MAX));
    assert_eq!(parse_u64("18446744073709551616"), None);
    assert_eq!(parse_u64(""), None);
    assert_eq!(flag_text(true), "true");
    assert!(!hook_enabled_for(Some(false), true));
    assert!(hook_enabled_for(None, true));
}

#[test]
fn settings_point_at_proxy() {
    let mut settings = Json::Object(vec![JsonEntry { key: "theme".to_string(), value: Json::Str("dark".to_string()) }]);
    assert!(point_settings_at_proxy(&mut settings, 32080));
    match &settings {
        Json::Object(e) => {
            assert_eq!(e.len(), 2);
            assert_eq!(e[1].key, "env");
            match &e[1].value {
                Json::Object(env) => {
                    assert_eq!(env[0].key, "ANTHROPIC_BASE_URL");
                    assert!(matches!(&env[0].value, Json::Str(u) if u == "http://localhost:32080"));
                }
                _ => panic!("env is an object"),
            }
        }
        _ => panic!("settings stay an object"),
    }
    let mut arr = Json::Array(vec![]);
    assert!(!point_settings_at_proxy(&mut arr, 1));
}
