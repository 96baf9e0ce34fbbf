use nodeget_agent::config::{
    wants_generated_uuid, AgentConfig, ConfigError, IpProvider, PreparedConfig, Server,
    DEFAULT_CONNECT_TIMEOUT_MS, DEFAULT_NTP_SERVER,
};

fn minimal_config() -> AgentConfig {
    AgentConfig {
        log_level: Some("info".to_owned()),
        dynamic_report_interval_ms: None,
        dynamic_summary_report_interval_ms: None,
        static_report_interval_ms: None,
        agent_uuid: uuid::Uuid::nil().as_u128(),
        connect_timeout_ms: None,
        exec_max_character: None,
        terminal_shell: None,
        ip_provider: None,
        ntp_server: None,
        server: None,
    }
}

fn server(name: &str) -> Server {
    Server {
        name: name.to_owned(),
        server_uuid: "00000000-0000-0000-0000-000000000000".to_owned(),
        token: "token".to_owned(),
        ws_url: "ws://localhost/".to_owned(),
        allow_task: Some(true),
        allow_icmp_ping: None,
        allow_tcp_ping: None,
        allow_http_ping: None,
        allow_web_shell: Some(false),
        allow_read_config: None,
        allow_edit_config: None,
        allow_execute: None,
        allow_http_request: None,
        allow_ip: None,
        allow_version: None,
    }
}

fn refusal(config: &AgentConfig) -> String {
    match config.validate() {
        Ok(()) => panic!("the configuration is valid"),
        Err(e) => e.message(),
    }
}

#[test]
fn resolved_defaults_match_documented_values() {
    let config = minimal_config();

    assert_eq!(
        config.resolved_connect_timeout_ms(),
        DEFAULT_CONNECT_TIMEOUT_MS
    );
    assert_eq!(config.resolved_ntp_server(), DEFAULT_NTP_SERVER);
    assert_eq!(config.resolved_terminal_shell(), None);
}

#[test]
fn resolved_values_trim_configured_strings() {
    let mut config = minimal_config();
    config.connect_timeout_ms = Some(2500);
    config.ntp_server = Some(" ntp.example.com ".to_owned());
    config.terminal_shell = Some(" /usr/bin/zsh ".to_owned());

    assert_eq!(config.resolved_connect_timeout_ms(), 2500);
    assert_eq!(config.resolved_ntp_server(), "ntp.example.com");
    assert_eq!(config.resolved_terminal_shell(), Some("/usr/bin/zsh"));
}

#[test]
fn default_values_are_the_documented_ones() {
    assert_eq!(DEFAULT_CONNECT_TIMEOUT_MS, 1000);
    assert_eq!(DEFAULT_NTP_SERVER, "time.pool.aliyun.com");
}

#[test]
fn blank_settings_count_as_missing() {
    let mut config = minimal_config();
    config.ntp_server = Some(" \t\u{3000}\n".to_owned());
    config.terminal_shell = Some(String::new());

    assert_eq!(config.resolved_ntp_server(), "time.pool.aliyun.com");
    assert_eq!(config.resolved_terminal_shell(), None);
}

#[test]
fn inner_white_space_stays() {
    let mut config = minimal_config();
    config.terminal_shell = Some("\u{a0}C:\\Program Files\\sh \u{e9}\u{85}".to_owned());
    assert_eq!(config.resolved_terminal_shell(), Some("C:\\Program Files\\sh \u{e9}"));
}

#[test]
fn minimal_config_is_valid() {
    let mut config = minimal_config();
    config.ip_provider = Some(IpProvider::Cloudflare);
    assert!(config.validate().is_ok());
    config.server = Some(vec![server("a"), server("b"), server("A"), server("")]);
    assert!(config.validate().is_ok());
}

#[test]
fn zero_connect_timeout_is_refused_first() {
    let mut config = minimal_config();
    config.connect_timeout_ms = Some(0);
    config.server = Some(vec![server("a"), server("a")]);
    config.dynamic_summary_report_interval_ms = Some(0);
    assert!(matches!(config.validate(), Err(ConfigError::ZeroConnectTimeout)));
    assert_eq!(refusal(&config), "connect_timeout_ms must be greater than 0");
}

#[test]
fn first_repeated_server_name_is_reported() {
    let mut config = minimal_config();
    config.dynamic_summary_report_interval_ms = Some(0);
    config.server = Some(vec![
        server("a"),
        server("b"),
        server("c"),
        server("b"),
        server("a"),
    ]);
    assert_eq!(refusal(&config), "Duplicate server name 'b' in config");
}

#[test]
fn zero_summary_interval_is_refused() {
    let mut config = minimal_config();
    config.dynamic_summary_report_interval_ms = Some(0);
    assert!(matches!(config.validate(), Err(ConfigError::ZeroSummaryInterval)));
    assert_eq!(
        refusal(&config),
        "dynamic_summary_report_interval_ms must be greater than 0"
    );
}

#[test]
fn report_interval_must_be_a_multiple() {
    let mut config = minimal_config();
    config.dynamic_summary_report_interval_ms = Some(300);
    assert_eq!(
        refusal(&config),
        "dynamic_report_interval_ms (1000) must be an integer multiple of dynamic_summary_report_interval_ms (300)"
    );
    config.dynamic_report_interval_ms = Some(900);
    assert!(config.validate().is_ok());
    config.dynamic_report_interval_ms = Some(0);
    assert!(config.validate().is_ok());
    config.dynamic_report_interval_ms = Some(u64::MAX);
    config.dynamic_summary_report_interval_ms = Some(2);
    assert_eq!(
        refusal(&config),
        "dynamic_report_interval_ms (18446744073709551615) must be an integer multiple of dynamic_summary_report_interval_ms (2)"
    );
}

#[test]
fn valid_config_has_positive_timeout() {
    for timeout in [None, Some(1), Some(u64::MAX)] {
        let mut config = minimal_config();
        config.connect_timeout_ms = timeout;
        assert!(config.validate().is_ok());
        assert!(config.resolved_connect_timeout_ms() > 0);
    }
}

#[test]
fn placeholder_is_recognised_in_any_case() {
    assert!(wants_generated_uuid(&Some("auto_gen".to_owned())));
    assert!(wants_generated_uuid(&Some("Auto_GEN".to_owned())));
    assert!(!wants_generated_uuid(&Some("auto_gen ".to_owned())));
    assert!(!wants_generated_uuid(&Some("auto-gen".to_owned())));
    assert!(!wants_generated_uuid(&None));
}

#[test]
fn broken_document_is_refused() {
    match AgentConfig::prepare_config("agent_uuid = ") {
        Err(ConfigError::Toml(message)) => {
            let expected = toml::from_str::<toml::Value>("agent_uuid = ").unwrap_err();
            assert_eq!(message, expected.to_string());
            assert!(message.contains("TOML parse error"));
            assert_eq!(ConfigError::Toml("m".to_owned()).message(), "m");
        }
        _ => panic!("the document is no TOML"),
    }
}

#[test]
fn document_without_placeholder_is_unchanged() {
    for content in [
        "",
        "log_level = 'info'\n",
        "agent_uuid = \"67e55044-10b1-426f-9247-bb680e5fe0c8\"",
        "agent_uuid = 5",
        "[server]\nagent_uuid = \"auto_gen\"\n",
        "# agent_uuid = \"auto_gen\"\n",
        "agent_uuid = \"x\"\n[t]\nagent_uuid = \"auto_ge\u{20ac}\"\n",
    ] {
        assert!(matches!(
            AgentConfig::prepare_config(content),
            Ok(PreparedConfig::Unchanged)
        ));
    }
}

#[test]
fn placeholder_is_replaced_by_a_random_uuid() {
    let content = "log_level = \"info\"\nagent_uuid = \"auto_gen\" # mine\n";
    let text = match AgentConfig::prepare_config(content) {
        Ok(PreparedConfig::Rewritten(text)) => text,
        _ => panic!("the placeholder is there"),
    };
    let head = "log_level = \"info\"\nagent_uuid = \"";
    let tail = "\" # mine\n";
    assert!(text.starts_with(head));
    assert!(text.ends_with(tail));
    let id = &text[head.len()..text.len() - tail.len()];
    let parsed = uuid::Uuid::parse_str(id).unwrap();
    assert_eq!(parsed.get_version_num(), 4);
    assert_eq!(parsed.get_variant(), uuid::Variant::RFC4122);
    assert_eq!(parsed.to_string(), id);

    assert!(matches!(
        AgentConfig::prepare_config(&text),
        Ok(PreparedConfig::Unchanged)
    ));

    match AgentConfig::prepare_config(content) {
        Ok(PreparedConfig::Rewritten(other)) => assert_ne!(other, text),
        _ => panic!("the placeholder is there"),
    }
}

fn rewritten(content: &str) -> String {
    match AgentConfig::prepare_config(content) {
        Ok(PreparedConfig::Rewritten(text)) => text,
        _ => panic!("the placeholder is there"),
    }
}

#[test]
fn later_starts_leave_the_file_alone() {
    for content in [
        "agent_uuid=\"auto_gen\"",
        "# comment\r\n\r\nlog_level = 'info'\r\n \tagent_uuid\t=\t 'AUTO_gen' # x\r\nntp_server = \"\"\"\r\na\"\"\"\r\n",
        "a = [\n1]\nb = { c = 1 }\nagent_uuid = \"auto_gen\"\n",
        "connect_timeout_ms = 5\na.b = \"\"\nagent_uuid = \"Auto_Gen\"\n[t]\nagent_uuid = 'auto_gen'\n",
    ] {
        let once = rewritten(content);
        assert!(matches!(
            AgentConfig::prepare_config(&once),
            Ok(PreparedConfig::Unchanged)
        ));
    }
}

#[test]
fn other_values_leave_the_file_alone() {
    for content in [
        "agent_uuid = \"auto_gen2\"\n",
        "agent_uuid = 'x'\n[t]\nagent_uuid = \"auto_gen\"\n",
        "[t]\nagent_uuid = \"auto_gen\"\n",
        "\"$__toml_private_datetime\" = \"1979-05-27\"\nagent_uuid = \"x\"\n",
    ] {
        assert!(matches!(
            AgentConfig::prepare_config(content),
            Ok(PreparedConfig::Unchanged)
        ));
    }
}

/// The UUID between two texts.
fn between<'a>(text: &'a str, before: &str, after: &str) -> &'a str {
    assert!(text.starts_with(before));
    assert!(text.ends_with(after));
    let id = &text[before.len()..text.len() - after.len()];
    let parsed = uuid::Uuid::parse_str(id).unwrap();
    assert_eq!(parsed.get_version_num(), 4);
    assert_eq!(parsed.to_string(), id);
    id
}

#[test]
fn placeholder_is_replaced_however_it_is_written() {
    for (content, before, after) in [
        ("\"agent_uuid\" = \"auto_gen\"\n", "\"agent_uuid\" = \"", "\"\n"),
        ("'agent_uuid'='auto_gen'", "'agent_uuid'=\"", "\""),
        ("agent_uuid = \"\"\"auto_gen\"\"\" # x\r\n", "agent_uuid = \"", "\" # x\r\n"),
        ("agent_uuid = \'\'\'\nAuto_Gen\'\'\'\na=1", "agent_uuid = \"", "\"\na=1"),
        ("agent_uuid = \"auto\\u005fgen\"\n", "agent_uuid = \"", "\"\n"),
        ("\"agent\\u005fuuid\" = 'AUTO_GEN'\n", "\"agent\\u005fuuid\" = \"", "\"\n"),
        (
            "\"agent_uuid\" = \"auto_gen\" # \u{20ac}\n[t]\nagent_uuid = 'auto_gen'\n",
            "\"agent_uuid\" = \"",
            "\" # \u{20ac}\n[t]\nagent_uuid = 'auto_gen'\n",
        ),
        (
            "agent_uuid = \"auto_gen\"\n[x]\nagent_uuid = \"\u{4e2d}\u{4e2d}\u{4e2d}\"\n",
            "agent_uuid = \"",
            "\"\n[x]\nagent_uuid = \"\u{4e2d}\u{4e2d}\u{4e2d}\"\n",
        ),
        ("a = [1]\nagent_uuid = \"auto_gen\"\n", "a = [1]\nagent_uuid = \"", "\"\n"),
        (
            "a = \"\"\"\nagent_uuid = 'x'\n\"\"\" # [\nagent_uuid = \"auto_gen\"\n",
            "a = \"\"\"\nagent_uuid = 'x'\n\"\"\" # [\nagent_uuid = \"",
            "\"\n",
        ),
    ] {
        let once = rewritten(content);
        let id = between(&once, before, after);
        let table: toml::Table = toml::from_str(&once).unwrap();
        assert_eq!(table["agent_uuid"].as_str(), Some(id));
        assert!(matches!(
            AgentConfig::prepare_config(&once),
            Ok(PreparedConfig::Unchanged)
        ));
    }
}
