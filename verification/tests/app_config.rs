use deepseek_cursor_proxy_rust::cli::Cli;
use deepseek_cursor_proxy_rust::config::{AppConfig, default_config_path, default_reasoning_cache_path, is_yaml_file};
use deepseek_cursor_proxy_rust::cursor::state::{
    APPLICATION_USER_KEY, cursor_backup_path, default_cursor_state_db_path, update_application_user,
};
use deepseek_cursor_proxy_rust::error::AppError;
use deepseek_cursor_proxy_rust::json::JsonValue;
use deepseek_cursor_proxy_rust::trace::model::TraceSummary;
use deepseek_cursor_proxy_rust::trace::writer::TraceWriter;
use deepseek_cursor_proxy_rust::tunnel::cloudflared::{
    TunnelAction, TunnelEvent, extract_trycloudflare_url, next_tunnel_action,
};
use serde_json::Value;

fn sample_cli() -> Cli {
    Cli {
        config: None,
        host: Some("127.0.0.1".to_string()),
        port: Some(9100),
        verbose: true,
        no_display_reasoning: true,
        no_collapsible_reasoning: false,
        trace_dir: None,
        clear_reasoning_cache: false,
        tunnel: true,
        tunnel_provider: Some("cloudflared".to_string()),
        cloudflared_bin: None,
        no_sync_cursor_base_url: false,
        cursor_state_db: None,
    }
}

#[test]
fn default_config_has_expected_local_bind_address() {
    let config = AppConfig::default();
    assert_eq!(config.bind_address(), "127.0.0.1:9000");
}

#[test]
fn default_config_path_uses_yaml_extension() {
    assert!(is_yaml_file(&default_config_path()));
    assert!(is_yaml_file("config.yml"));
    assert!(!is_yaml_file("config.json"));
}

#[test]
fn default_paths_live_in_the_proxy_directory() {
    assert!(default_config_path().ends_with(".deepseek-cursor-proxy-rust/config.yaml"));
    assert!(default_reasoning_cache_path().ends_with(".deepseek-cursor-proxy-rust/reasoning_content.sqlite3"));
    assert_eq!(AppConfig::config_path_or_default(Some("x.yaml".to_string())), "x.yaml");
}

#[test]
fn defaults_for_a_home_directory() {
    let config = AppConfig::defaults_for_home(Some("/home/u"));
    assert_eq!(config.reasoning_content_path, "/home/u/.deepseek-cursor-proxy-rust/reasoning_content.sqlite3");
    assert_eq!(
        config.cursor_state_db_path,
        "/home/u/Library/Application Support/Cursor/User/globalStorage/state.vscdb"
    );
    assert_eq!(config.upstream_model, "deepseek-v4-pro");
    assert_eq!(config.max_request_body_bytes, 20 * 1024 * 1024);
    let without_home = AppConfig::defaults_for_home(None);
    assert_eq!(without_home.reasoning_content_path, "./.deepseek-cursor-proxy-rust/reasoning_content.sqlite3");
}

#[test]
fn bootstrap_applies_cli_overrides() {
    let mut config = AppConfig::defaults_for_home(Some("/home/u"));
    config.apply_cli(&sample_cli());
    assert_eq!(config.port, 9100);
    assert!(config.verbose);
    assert!(!config.display_reasoning);
    assert!(config.collapsible_reasoning);
    assert!(config.tunnel_enabled);
    assert_eq!(config.tunnel_provider, "cloudflared");
    assert!(config.sync_cursor_openai_base_url);
    assert_eq!(
        config.cursor_state_db_path,
        "/home/u/Library/Application Support/Cursor/User/globalStorage/state.vscdb"
    );
    let mut cli = sample_cli();
    cli.cursor_state_db = Some("/tmp/state.vscdb".to_string());
    config.apply_cli(&cli);
    assert_eq!(config.cursor_state_db_path, "/tmp/state.vscdb");
}

#[test]
fn options_not_given_keep_the_configuration_file_settings() {
    let mut config = AppConfig::defaults_for_home(Some("/home/u"));
    config.port = 9500;
    config.host = "0.0.0.0".to_string();
    config.upstream_model = "deepseek-v4-flash".to_string();
    config.verbose = true;
    config.display_reasoning = false;
    config.trace_dir = Some("/t".to_string());
    config.tunnel_enabled = true;
    config.tunnel_provider = "other".to_string();
    config.sync_cursor_openai_base_url = false;
    let cli = Cli {
        config: Some("/c.yaml".to_string()),
        host: None,
        port: None,
        verbose: false,
        no_display_reasoning: false,
        no_collapsible_reasoning: false,
        trace_dir: None,
        clear_reasoning_cache: false,
        tunnel: false,
        tunnel_provider: None,
        cloudflared_bin: None,
        no_sync_cursor_base_url: false,
        cursor_state_db: None,
    };
    config.apply_cli(&cli);
    assert_eq!(config.port, 9500);
    assert_eq!(config.host, "0.0.0.0");
    assert_eq!(config.upstream_model, "deepseek-v4-flash");
    assert!(config.verbose);
    assert!(!config.display_reasoning);
    assert_eq!(config.trace_dir.as_deref(), Some("/t"));
    assert!(config.tunnel_enabled);
    assert_eq!(config.tunnel_provider, "other");
    assert!(!config.sync_cursor_openai_base_url);
}

#[test]
fn tunnel_provider_is_checked() {
    let mut config = AppConfig::defaults_for_home(None);
    assert_eq!(config.tunnel_wanted(), Ok(false));
    config.tunnel_enabled = true;
    assert_eq!(config.tunnel_wanted(), Ok(true));
    config.tunnel_provider = "ngrok".to_string();
    assert_eq!(
        config.tunnel_wanted(),
        Err(AppError::Config("unsupported tunnel provider: ngrok".to_string()))
    );
    assert_eq!(config.local_url(), "http://127.0.0.1:9000");
}

#[test]
fn default_cursor_state_db_path_points_to_global_storage() {
    assert!(default_cursor_state_db_path().contains("Cursor/User/globalStorage/state.vscdb"));
}

#[test]
fn cursor_backup_sits_beside_the_database() {
    assert_eq!(cursor_backup_path("/tmp/x/state.vscdb"), "/tmp/x/state.vscdb.bak");
}

#[test]
fn updates_existing_openai_base_url() {
    let (old, encoded) = update_application_user(
        "/tmp/state.vscdb",
        r#"{"openAIBaseUrl":"https://old.example.com","useOpenAIKey":true}"#,
        "https://new.example.com",
    )
    .unwrap();
    assert_eq!(old.as_deref(), Some("https://old.example.com"));
    let payload: Value = serde_json::from_str(&encoded).unwrap();
    assert_eq!(payload["openAIBaseUrl"], "https://new.example.com");
    assert_eq!(payload["useOpenAIKey"], true);
    assert!(APPLICATION_USER_KEY.ends_with("applicationUser"));
}

#[test]
fn non_object_settings_are_replaced_and_bad_json_is_refused() {
    let (old, encoded) = update_application_user("db", "[1,2]", "https://u").unwrap();
    assert_eq!(old, None);
    assert_eq!(encoded, r#"{"openAIBaseUrl":"https://u"}"#);
    match update_application_user("db", "{", "https://u") {
        Err(AppError::Config(m)) => assert!(m.starts_with("failed to parse Cursor application user JSON from db: ")),
        other => panic!("unexpected {other:?}"),
    }
}

#[test]
fn extracts_quick_tunnel_url_from_log_line() {
    let line = "INF Quick Tunnel has been created! Visit it at https://abc-123.trycloudflare.com";
    assert_eq!(
        extract_trycloudflare_url(line),
        Some("https://abc-123.trycloudflare.com".to_string())
    );
}

#[test]
fn ignores_lines_without_quick_tunnel_url() {
    assert_eq!(extract_trycloudflare_url("plain log line"), None);
}

#[test]
fn tunnel_events_decide_the_next_step() {
    match next_tunnel_action(&TunnelEvent::Line("at https://a.trycloudflare.com now".to_string())) {
        TunnelAction::Ready(url) => assert_eq!(url, "https://a.trycloudflare.com"),
        _ => panic!("expected a URL"),
    }
    assert!(matches!(next_tunnel_action(&TunnelEvent::Line("starting".to_string())), TunnelAction::Wait));
    assert!(matches!(next_tunnel_action(&TunnelEvent::Quiet), TunnelAction::Wait));
    match next_tunnel_action(&TunnelEvent::Exited("exit status: 1".to_string())) {
        TunnelAction::Fail(AppError::Config(m)) => {
            assert_eq!(m, "cloudflared exited before publishing a URL: exit status: 1")
        }
        _ => panic!("expected a failure"),
    }
    assert!(matches!(next_tunnel_action(&TunnelEvent::TimedOut), TunnelAction::Fail(_)));
    assert!(matches!(next_tunnel_action(&TunnelEvent::OutputEnded), TunnelAction::Fail(_)));
}

#[test]
fn writes_trace_file() {
    let mut writer = TraceWriter::new("/tmp/traces", 1700000000000, 42);
    assert_eq!(writer.session_dir(), "/tmp/traces/1700000000000-pid42");
    let record = writer.write(TraceSummary {
        sequence: 0,
        method: "POST".to_string(),
        path: "/v1/chat/completions".to_string(),
        request_body: Some(JsonValue::Object(vec![("ok".to_string(), JsonValue::Bool(true))])),
        response_status: Some(200),
    });
    assert_eq!(record.path, "/tmp/traces/1700000000000-pid42/request-000001.json");
    assert_eq!(record.summary.sequence, 1);
    assert_eq!(record.summary.method, "POST");
    assert_eq!(record.summary.path, "/v1/chat/completions");
    assert_eq!(
        record.summary.request_body,
        Some(JsonValue::Object(vec![("ok".to_string(), JsonValue::Bool(true))]))
    );
    assert_eq!(record.summary.response_status, Some(200));
    let second = writer.write(TraceSummary {
        sequence: 0,
        method: "GET".to_string(),
        path: "/healthz".to_string(),
        request_body: None,
        response_status: None,
    });
    assert!(second.path.ends_with("request-000002.json"));
    assert_eq!(second.summary.sequence, 2);
    assert!(second.summary.request_body.is_none());
    assert_ne!(second.path, record.path);
    assert_eq!(writer.next_sequence_number(), 3);
}

#[test]
fn error_messages_name_their_kind() {
    assert_eq!(AppError::Storage("x".to_string()).message(), "storage error: x");
    assert_eq!(AppError::Config("y".to_string()).message(), "configuration error: y");
}
