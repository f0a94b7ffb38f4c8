use vakil::config::{
    listen_addr_to_check, parse_config_text, parse_config_value, parse_plugin_paths,
    parse_plugin_paths_strict, ConfigError, ProxySettings, RuntimeConfig, RuntimeOverrides,
};

const CONFIG_PATH: &str = "/tmp/vakil-runtime-test.toml";

/// Reads a config text the way the runtime does, with the listen address
/// judged valid when it is one of the addresses these tests use.
fn parse(content: &str) -> Result<RuntimeOverrides, String> {
    let valid = match listen_addr_to_check(content) {
        Some(addr) => addr.starts_with("127.0.0.1:"),
        None => true,
    };
    parse_config_text(content, valid).map_err(|e| e.message(CONFIG_PATH))
}

#[test]
fn parse_plugin_paths_splits_and_trims_entries() {
    let paths = parse_plugin_paths("  /tmp/one ; ; /tmp/two  ", ";");

    assert_eq!(paths, vec!["/tmp/one".to_string(), "/tmp/two".to_string()]);
}

#[test]
fn parse_config_file_reads_listen_addr_and_plugins() {
    let config = parse(
        r#"
http_listen_addr = "127.0.0.1:9090"
plugin_paths = "./one; ./two"
"#,
    )
    .expect("parse runtime config");

    assert_eq!(config.http_listen_addr.as_deref(), Some("127.0.0.1:9090"));
    assert_eq!(config.plugin_paths.as_ref().map(|paths| paths.len()), Some(2));
}

#[test]
fn parse_config_file_rejects_unknown_keys() {
    let err = parse(
        r#"
http_listen_addr = "127.0.0.1:9090"
bogus = "nope"
"#,
    )
    .expect_err("reject unknown key");
    assert!(err.contains("unknown config key bogus"));
}

#[test]
fn parse_config_file_rejects_duplicate_keys() {
    let err = parse(
        r#"
http_listen_addr = "127.0.0.1:9090"
http_listen_addr = "127.0.0.1:9091"
"#,
    )
    .expect_err("reject duplicate key");
    assert!(err.contains("duplicate http_listen_addr"));
}

#[test]
fn parse_config_file_rejects_invalid_listen_addr() {
    let err = parse(
        r#"
http_listen_addr = "not-an-addr"
"#,
    )
    .expect_err("reject invalid listen addr");
    assert!(err.contains("invalid http_listen_addr value"));
}

#[test]
fn parse_config_file_rejects_empty_plugin_path_segments() {
    let err = parse(
        r#"
plugin_paths = "./one;;./two"
"#,
    )
    .expect_err("reject malformed plugin paths");
    assert!(err.contains("invalid empty plugin path entry"));
}

#[test]
fn from_env_prefers_config_file_over_env_defaults() {
    let overrides = parse(
        r#"
http_listen_addr = "127.0.0.1:9091"
plugin_paths = "./alpha;./beta"
"#,
    )
    .expect("load runtime config from env");

    let config = RuntimeConfig::from_settings(
        None,
        None,
        None,
        Some("./ignored".to_string()),
        Some(";".to_string()),
        Some(overrides),
    );

    assert_eq!(config.http_listen_addr, "127.0.0.1:9091");
    assert_eq!(config.plugin_paths, vec!["./alpha".to_string(), "./beta".to_string()]);
}

#[test]
fn settings_default_when_unset() {
    let config = RuntimeConfig::from_settings(None, None, None, None, None, None);
    assert_eq!(config.http_listen_addr, "127.0.0.1:12345");
    assert_eq!(config.tcp_listen_addr, "127.0.0.1:12346");
    assert_eq!(config.udp_listen_addr, "127.0.0.1:12347");
    assert!(config.plugin_paths.is_empty());

    let config = RuntimeConfig::from_settings(
        Some("0.0.0.0:80".to_string()),
        Some("0.0.0.0:81".to_string()),
        Some("0.0.0.0:82".to_string()),
        Some("a,b, c".to_string()),
        Some(",".to_string()),
        None,
    );
    assert_eq!(config.http_listen_addr, "0.0.0.0:80");
    assert_eq!(config.tcp_listen_addr, "0.0.0.0:81");
    assert_eq!(config.udp_listen_addr, "0.0.0.0:82");
    assert_eq!(config.plugin_paths, vec!["a".to_string(), "b".to_string(), "c".to_string()]);
    assert_eq!(ProxySettings::new("0.0.0.0:80".to_string()).listen_addr, "0.0.0.0:80");
}

#[test]
fn plugin_paths_blank_input_is_empty() {
    assert!(parse_plugin_paths("   ", ";").is_empty());
    assert!(parse_plugin_paths("", ";").is_empty());
    assert_eq!(parse_plugin_paths("x", ";"), vec!["x".to_string()]);
}

#[test]
fn strict_plugin_paths_report_position() {
    assert_eq!(
        parse_plugin_paths_strict(" a ; b ").expect("paths"),
        vec!["a".to_string(), "b".to_string()]
    );
    assert!(parse_plugin_paths_strict("  ").expect("empty").is_empty());
    let err = parse_plugin_paths_strict("a;;b").expect_err("empty entry");
    assert!(matches!(err, ConfigError::EmptyPluginPathEntry(2)));
    assert_eq!(err.message(CONFIG_PATH), "invalid empty plugin path entry at position 2");
    let err = parse_plugin_paths_strict("a;b;").expect_err("trailing separator");
    assert!(matches!(err, ConfigError::EmptyPluginPathEntry(3)));
}

#[test]
fn config_values_must_be_quoted() {
    assert_eq!(parse_config_value("\"abc\"").expect("quoted"), "abc");
    assert_eq!(parse_config_value("\"\"").expect("empty"), "");
    let err = parse_config_value("abc").expect_err("unquoted");
    assert_eq!(err.message(CONFIG_PATH), "config values must be quoted strings: abc");
    assert!(parse_config_value("\"").is_err());
}

#[test]
fn config_text_errors_carry_exact_messages() {
    let err = parse("just a line").expect_err("no equals sign");
    assert_eq!(err, "invalid config line: just a line");
    let err = parse("plugin_paths = \"a\"\nplugin_paths = \"b\"").expect_err("duplicate paths");
    assert_eq!(err, format!("duplicate plugin_paths in config file: {}", CONFIG_PATH));
    let err = parse("bogus = \"nope\"").expect_err("unknown key");
    assert_eq!(err, format!("unknown config key bogus in {}", CONFIG_PATH));
}

#[test]
fn config_text_skips_comments_and_blank_lines() {
    let config = parse("# comment\n\n   \nplugin_paths = \"a\"\n").expect("parse");
    assert!(config.http_listen_addr.is_none());
    assert_eq!(config.plugin_paths, Some(vec!["a".to_string()]));
    let empty = parse("").expect("empty");
    assert!(empty.http_listen_addr.is_none() && empty.plugin_paths.is_none());
    assert_eq!(listen_addr_to_check("http_listen_addr = \"x:1\""), Some("x:1".to_string()));
    assert_eq!(listen_addr_to_check("plugin_paths = \"a\""), None);
}

#[test]
fn parse_config_file_accepts_listen_addr_alias() {
    let config = parse("listen_addr = \"127.0.0.1:18080\"\nplugin_paths = \"/tmp/libnoop.so\"\n")
        .expect("alias accepted");
    assert_eq!(config.http_listen_addr.as_deref(), Some("127.0.0.1:18080"));
    assert_eq!(config.plugin_paths.as_ref().map(|paths| paths.len()), Some(1));

    let err = parse("listen_addr = \"127.0.0.1:1\"\nhttp_listen_addr = \"127.0.0.1:2\"\n")
        .expect_err("both spellings set the same key");
    assert!(err.contains("duplicate"), "{}", err);
}

#[test]
fn blank_and_comment_lines_do_not_change_the_outcome() {
    let plain = parse("http_listen_addr = \"127.0.0.1:9090\"\nplugin_paths = \"./one\"\n").expect("plain");
    let padded = parse("\n   \n# comment\nhttp_listen_addr = \"127.0.0.1:9090\"\n  # another\n\nplugin_paths = \"./one\"\n\t\n")
        .expect("padded");
    assert_eq!(plain.http_listen_addr, padded.http_listen_addr);
    assert_eq!(plain.plugin_paths, padded.plugin_paths);
}

#[test]
fn several_inserted_blank_lines_keep_errors_too() {
    let plain = parse("bogus = \"x\"\n").expect_err("unknown key");
    let padded = parse("# head\n\n  \nbogus = \"x\"\n# tail\n\n").expect_err("unknown key");
    assert_eq!(plain, padded);
}
