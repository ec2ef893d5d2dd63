use deepseek_stream::config::{updated_user_config, ConfigManager, Settings, UserConfig};
use deepseek_stream::history::{HistoryMessage, HistoryProcessor};
use deepseek_stream::DEFAULT_API_URL;

fn entry(role: &str, content: &str, status: &str, created_at: u64) -> HistoryMessage {
    HistoryMessage {
        role: role.to_string(),
        content: content.to_string(),
        status: status.to_string(),
        created_at,
    }
}

fn texts(ms: Vec<deepseek_stream::msg::Message>) -> Vec<(String, String)> {
    ms.into_iter().map(|m| (m.role, m.content)).collect()
}

#[test]
fn extract_keeps_completed_nonblank_in_order() {
    let history = vec![
        entry("user", "q1", "completed", 1),
        entry("plugin", "a1", "completed", 2),
        entry("user", "typing", "pending", 3),
        entry("system", "rules", "completed", 4),
        entry("user", "   ", "completed", 5),
        entry("oracle", "odd", "completed", 6),
    ];
    let out = texts(HistoryProcessor::extract_completed_messages(history));
    assert_eq!(
        out,
        vec![
            ("user".to_string(), "q1".to_string()),
            ("assistant".to_string(), "a1".to_string()),
            ("system".to_string(), "rules".to_string()),
            ("user".to_string(), "odd".to_string()),
        ]
    );
}

#[test]
fn extract_empty_history() {
    let out = HistoryProcessor::extract_completed_messages(Vec::new());
    assert!(out.is_empty());
}

#[test]
fn recent_takes_newest_and_restores_order() {
    let history = vec![
        entry("user", "oldest", "completed", 1),
        entry("plugin", "old", "completed", 2),
        entry("user", "new", "completed", 3),
        entry("plugin", "newest", "completed", 4),
        entry("user", "ignored", "failed", 5),
    ];
    let out = texts(HistoryProcessor::extract_recent_completed_messages(history, 2));
    assert_eq!(
        out,
        vec![
            ("user".to_string(), "new".to_string()),
            ("assistant".to_string(), "newest".to_string()),
        ]
    );
}

#[test]
fn recent_with_large_limit_keeps_everything() {
    let history = vec![
        entry("user", "a", "completed", 1),
        entry("plugin", "b", "completed", 2),
    ];
    let out = texts(HistoryProcessor::extract_recent_completed_messages(history, 10));
    assert_eq!(
        out,
        vec![
            ("user".to_string(), "a".to_string()),
            ("assistant".to_string(), "b".to_string()),
        ]
    );
}

#[test]
fn recent_equal_timestamps_keep_original_order() {
    let history = vec![
        entry("user", "first", "completed", 7),
        entry("plugin", "second", "completed", 7),
        entry("user", "third", "completed", 7),
    ];
    let out = texts(HistoryProcessor::extract_recent_completed_messages(history, 3));
    assert_eq!(
        out,
        vec![
            ("user".to_string(), "third".to_string()),
            ("assistant".to_string(), "second".to_string()),
            ("user".to_string(), "first".to_string()),
        ]
    );
}

#[test]
fn recent_blank_filter_runs_after_limit() {
    let history = vec![
        entry("user", "kept", "completed", 1),
        entry("user", "  ", "completed", 2),
        entry("user", "also kept", "completed", 3),
    ];
    // the two newest are taken; the blank one is then dropped
    let out = texts(HistoryProcessor::extract_recent_completed_messages(history, 2));
    assert_eq!(out, vec![("user".to_string(), "also kept".to_string())]);
}

#[test]
fn default_config_has_canonical_url_and_no_key() {
    let c = UserConfig::default();
    assert!(c.api_key.is_none());
    assert_eq!(c.api_url.as_deref(), Some(DEFAULT_API_URL));
}

#[test]
fn or_default_keeps_stored_values() {
    let stored = UserConfig {
        api_key: Some("stored-key".to_string()),
        api_url: Some("https://example.test/v1".to_string()),
    };
    let c = UserConfig::or_default(Some(stored));
    assert_eq!(c.api_key.as_deref(), Some("stored-key"));
    assert_eq!(c.api_url.as_deref(), Some("https://example.test/v1"));
    let d = UserConfig::or_default(None);
    assert!(d.api_key.is_none());
    assert_eq!(d.api_url.as_deref(), Some(DEFAULT_API_URL));
}

#[test]
fn updated_config_stores_blank_as_absent() {
    let c = updated_user_config("  \t", "https://example.test/v1");
    assert!(c.api_key.is_none());
    assert_eq!(c.api_url.as_deref(), Some("https://example.test/v1"));
    let c = updated_user_config("k", "");
    assert_eq!(c.api_key.as_deref(), Some("k"));
    assert!(c.api_url.is_none());
}

#[test]
fn settings_apply_and_store() {
    let mut s = Settings::new();
    assert_eq!(s.api_key, "");
    assert_eq!(s.api_url, DEFAULT_API_URL);
    assert!(!s.key_present());
    assert!(!s.ready());
    s.apply_user_config(UserConfig { api_key: Some("k1".to_string()), api_url: None });
    assert_eq!(s.api_key, "k1");
    assert_eq!(s.api_url, DEFAULT_API_URL);
    assert!(s.key_present());
    assert!(s.ready());
    let stored = s.to_user_config();
    assert_eq!(stored.api_key.as_deref(), Some("k1"));
    assert_eq!(stored.api_url.as_deref(), Some(DEFAULT_API_URL));
}

#[test]
fn config_manager_keeps_its_path() {
    let m = ConfigManager::new("user.toml");
    assert_eq!(m.path(), "user.toml");
}

#[test]
fn unicode_whitespace_counts_as_blank() {
    // no-break and ideographic spaces are whitespace, as trimming treats them
    let c = updated_user_config("\u{a0}\u{3000}", "\u{2003}\u{2028}");
    assert!(c.api_key.is_none());
    assert!(c.api_url.is_none());
    let mut s = Settings::new();
    s.apply_user_config(UserConfig {
        api_key: Some("\u{a0}".to_string()),
        api_url: Some("\u{85}\u{202f}".to_string()),
    });
    assert!(!s.key_present());
    assert!(!s.ready());
}

#[test]
fn unicode_whitespace_content_is_dropped() {
    let history = vec![
        entry("user", "\u{a0}\u{2009}", "completed", 1),
        entry("user", "kept", "completed", 2),
    ];
    let out = texts(HistoryProcessor::extract_completed_messages(history));
    assert_eq!(out, vec![("user".to_string(), "kept".to_string())]);
}

#[test]
fn non_whitespace_unicode_is_content() {
    let c = updated_user_config("\u{4f60}", "x");
    assert_eq!(c.api_key.as_deref(), Some("\u{4f60}"));
}
