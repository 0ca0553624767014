use codex_mcp::mcp_toml::collect_overlays;
use codex_mcp::mcp_toml::McpToml;
use codex_mcp::mcp_toml::Scope;
use codex_mcp::mcp_toml::is_stdio;
use codex_mcp::mcp_toml::to_mcp_server_config;
use codex_mcp::mcp_toml::ConfigError;
use codex_mcp::mcp_toml::McpTomlEntry;

fn table(pairs: &[(&str, &str)]) -> Vec<(String, String)> {
    pairs.iter().map(|(k, v)| (k.to_string(), v.to_string())).collect()
}

#[test]
fn test_to_mcp_server_config_stdio_ok() {
    let entry = McpTomlEntry {
        type_: None,
        command: Some("${HOME}/bin/svc".to_string()),
        args: vec!["--region".into(), "${REGION:-us-east}".into()],
        env: vec![(String::from("API_KEY"), String::from("${KEY}"))],
    };
    let map = table(&[("HOME", "/home/alice"), ("KEY", "secret")]);
    let cfg = match to_mcp_server_config(&entry, &map) {
        Ok(c) => c,
        Err(e) => panic!("unexpected error: {}", e.message()),
    };
    assert_eq!(cfg.command, "/home/alice/bin/svc");
    assert_eq!(cfg.args, vec!["--region", "us-east"]);
    let api_key = cfg
        .env
        .as_ref()
        .and_then(|m| m.iter().find(|(k, _)| k == "API_KEY").map(|(_, v)| v.clone()));
    assert_eq!(api_key.as_deref(), Some("secret"));
}

#[test]
fn test_to_mcp_server_config_reject_non_stdio() {
    for t in ["http", "sse", "HTTP", "SSe"] {
        let entry = McpTomlEntry {
            type_: Some(t.to_string()),
            command: Some("tool".to_string()),
            ..McpTomlEntry::empty()
        };
        let msg = match to_mcp_server_config(&entry, &[]) {
            Ok(v) => panic!("expected error, got {v:?}"),
            Err(e) => e.message(),
        };
        assert!(msg.to_lowercase().contains("unsupported mcp transport"));
    }
}

#[test]
fn test_to_mcp_server_config_missing_command_errors() {
    let entry = McpTomlEntry {
        command: None,
        ..McpTomlEntry::empty()
    };
    let msg = match to_mcp_server_config(&entry, &[]) {
        Ok(v) => panic!("expected error, got {v:?}"),
        Err(e) => e.message(),
    };
    assert!(msg.contains("missing `command`"));
}

#[test]
fn test_to_mcp_server_config_missing_env_var_errors() {
    let entry = McpTomlEntry {
        command: Some("tool".into()),
        args: vec!["${REQUIRED}".into()],
        ..McpTomlEntry::empty()
    };
    let msg = match to_mcp_server_config(&entry, &[]) {
        Ok(v) => panic!("expected error, got {v:?}"),
        Err(e) => e.message(),
    };
    assert!(msg.contains("environment variable `REQUIRED` not set"));
}

#[test]
fn stdio_transport_in_any_case_is_accepted() {
    for t in ["stdio", "STDIO", "StDiO"] {
        let entry = McpTomlEntry {
            type_: Some(t.to_string()),
            command: Some("tool".to_string()),
            ..McpTomlEntry::empty()
        };
        let cfg = to_mcp_server_config(&entry, &[]).unwrap();
        assert_eq!(cfg.command, "tool");
        assert!(cfg.args.is_empty());
        assert!(cfg.env.is_none());
    }
    assert!(is_stdio("Stdio"));
    assert!(!is_stdio("stdio "));
    assert!(!is_stdio("std"));
    assert!(!is_stdio(""));
}

#[test]
fn unsupported_transport_message_names_it() {
    let entry = McpTomlEntry {
        type_: Some("http".to_string()),
        command: None,
        ..McpTomlEntry::empty()
    };
    let err = to_mcp_server_config(&entry, &[]).unwrap_err();
    assert!(matches!(err, ConfigError::UnsupportedTransport(ref t) if t == "http"));
    assert_eq!(err.message(), "unsupported MCP transport `http` (only `stdio` supported)");
}

#[test]
fn command_expansion_error_has_command_label() {
    let entry = McpTomlEntry {
        command: Some("${NOPE}".into()),
        args: vec!["${ALSO_MISSING}".into()],
        ..McpTomlEntry::empty()
    };
    let msg = to_mcp_server_config(&entry, &[]).unwrap_err().message();
    assert_eq!(msg, "environment variable `NOPE` not set and no default provided in overlay:command");
}

#[test]
fn env_value_expansion_error_has_env_label() {
    let entry = McpTomlEntry {
        command: Some("tool".into()),
        env: vec![("K".into(), "${Z}".into())],
        ..McpTomlEntry::empty()
    };
    let msg = to_mcp_server_config(&entry, &[]).unwrap_err().message();
    assert_eq!(msg, "environment variable `Z` not set and no default provided in overlay:env");
}

#[test]
fn env_entries_keep_their_names_and_order() {
    let entry = McpTomlEntry {
        command: Some("tool".into()),
        env: vec![("B".into(), "${X:-b}".into()), ("A".into(), "plain".into())],
        ..McpTomlEntry::empty()
    };
    let cfg = to_mcp_server_config(&entry, &[("X".to_string(), "bx".to_string())]).unwrap();
    assert_eq!(
        cfg.env,
        Some(vec![("B".to_string(), "bx".to_string()), ("A".to_string(), "plain".to_string())])
    );
}

fn overlay_with(name: &str, command: &str) -> McpToml {
    let mut entry = McpTomlEntry::empty();
    entry.command = Some(command.to_string());
    McpToml { mcp_servers: vec![(name.to_string(), entry)] }
}

#[test]
fn overlays_come_local_first_then_project() {
    let both = collect_overlays(Some(overlay_with("beta", "beta")), Some(overlay_with("alpha", "alpha")));
    assert_eq!(both.len(), 2);
    assert!(matches!(both[0].0, Scope::Local));
    assert_eq!(both[0].1.mcp_servers[0].0, "beta");
    assert!(matches!(both[1].0, Scope::Project));
    assert_eq!(both[1].1.mcp_servers[0].0, "alpha");

    let only_project = collect_overlays(None, Some(overlay_with("alpha", "alpha")));
    assert_eq!(only_project.len(), 1);
    assert!(matches!(only_project[0].0, Scope::Project));

    assert!(collect_overlays(None, None).is_empty());
}

#[test]
fn plain_entry_reads_back_as_written() {
    let entry = McpTomlEntry {
        type_: Some("STDIO".to_string()),
        command: Some("tool $HOME".to_string()),
        args: vec!["--flag".into(), "{x}".into()],
        env: vec![(String::from("A"), String::from("1$"))],
    };
    let lookup = table(&[("HOME", "/home/alice")]);
    let cfg = to_mcp_server_config(&entry, &lookup).ok().expect("plain entry converts");
    assert_eq!(cfg.command, "tool $HOME");
    assert_eq!(cfg.args, vec!["--flag", "{x}"]);
    assert_eq!(cfg.env, Some(vec![(String::from("A"), String::from("1$"))]));

    let no_env = McpTomlEntry { type_: None, command: Some("tool".into()), args: vec![], env: vec![] };
    let cfg = to_mcp_server_config(&no_env, &lookup).ok().expect("plain entry converts");
    assert_eq!(cfg.command, "tool");
    assert!(cfg.args.is_empty());
    assert_eq!(cfg.env, None);
}

#[test]
fn command_empty_after_expansion_is_missing() {
    for command in ["${CMD:-}", ""] {
        let entry = McpTomlEntry { command: Some(command.to_string()), ..McpTomlEntry::empty() };
        let err = to_mcp_server_config(&entry, &[]).err().expect("expected error");
        assert!(matches!(err, ConfigError::MissingCommand));
        assert!(err.message().contains("missing `command`"));
    }
    let entry = McpTomlEntry { command: Some("${CMD:-}".to_string()), ..McpTomlEntry::empty() };
    let cfg = to_mcp_server_config(&entry, &table(&[("CMD", "tool")])).ok().expect("set variable converts");
    assert_eq!(cfg.command, "tool");
}
