use codex_mcp::mcp_cmd::NewServer;
use codex_mcp::toml_doc::remove_server_text;
use codex_mcp::toml_doc::upsert_servers_text;
use codex_mcp::toml_doc::WriteError;

fn server(name: &str, command: &str, args: &[&str], env: &[(&str, &str)]) -> NewServer {
    NewServer {
        name: name.to_string(),
        command: command.to_string(),
        args: args.iter().map(|s| s.to_string()).collect(),
        env: env.iter().map(|(k, v)| (k.to_string(), v.to_string())).collect(),
    }
}

#[test]
fn add_then_remove_in_user_config() {
    let text = upsert_servers_text("", &vec![server("svc", "tool", &["--flag"], &[])]).ok().unwrap();
    assert!(text.contains("[mcp_servers.svc]"), "{text}");
    assert!(text.contains("command = \"tool\""), "{text}");
    assert!(text.contains("args = [\"--flag\"]"), "{text}");
    assert!(!text.contains("env"), "{text}");

    let removed = remove_server_text(&text, "svc").ok().unwrap().unwrap();
    assert!(!removed.contains("[mcp_servers.svc]"), "{removed}");
    assert!(!removed.contains("tool"), "{removed}");
}

#[test]
fn upsert_keeps_the_rest_of_the_file() {
    let before = "model = \"o3\"\n\n[mcp_servers.svc]\ntype = \"stdio\"\ncommand = \"old\"\nenv = { A = \"1\" }\n\n[mcp_servers.other]\ncommand = \"keep\"\n";
    let text = upsert_servers_text(before, &vec![server("svc", "new", &[], &[])]).ok().unwrap();
    assert!(text.contains("model = \"o3\""), "{text}");
    assert!(text.contains("type = \"stdio\""), "{text}");
    assert!(text.contains("command = \"new\""), "{text}");
    assert!(!text.contains("old"), "{text}");
    assert!(!text.contains("env"), "{text}");
    assert!(text.contains("[mcp_servers.other]"), "{text}");
    assert!(text.contains("command = \"keep\""), "{text}");
}

#[test]
fn env_is_written_as_an_inline_table() {
    let text = upsert_servers_text("", &vec![server("svc", "tool", &[], &[("K", "v"), ("J", "w")])]).ok().unwrap();
    assert!(text.contains("env = { K = \"v\", J = \"w\" }"), "{text}");
}

#[test]
fn several_servers_are_written_in_order() {
    let servers = vec![server("a", "ta", &[], &[]), server("b", "tb", &["x", "y"], &[]), server("a", "ta2", &[], &[])];
    let text = upsert_servers_text("", &servers).ok().unwrap();
    assert!(text.contains("[mcp_servers.a]"), "{text}");
    assert!(text.contains("command = \"ta2\""), "{text}");
    assert!(!text.contains("command = \"ta\"\n"), "{text}");
    assert!(text.contains("args = [\"x\", \"y\"]"), "{text}");
    assert!(text.find("[mcp_servers.a]").unwrap() < text.find("[mcp_servers.b]").unwrap(), "{text}");
}

#[test]
fn invalid_text_is_replaced_by_a_new_document() {
    let text = upsert_servers_text("not toml [[[", &vec![server("svc", "tool", &[], &[])]).ok().unwrap();
    assert!(!text.contains("not toml"), "{text}");
    assert!(text.contains("[mcp_servers.svc]"), "{text}");
}

#[test]
fn non_table_shapes_are_refused() {
    let r = upsert_servers_text("mcp_servers = 3\n", &vec![server("svc", "tool", &[], &[])]);
    assert!(matches!(r, Err(WriteError::ServersNotTable)));
    let r = upsert_servers_text("[mcp_servers]\nsvc = { command = \"x\" }\n", &vec![server("svc", "tool", &[], &[])]);
    assert!(matches!(r, Err(WriteError::EntryNotTable(ref n)) if n == "svc"));
}

#[test]
fn remove_cases() {
    assert!(remove_server_text("[mcp_servers.a]\ncommand = \"x\"\n", "b").ok().unwrap().is_none());
    assert!(remove_server_text("mcp_servers = 3\n", "a").ok().unwrap().is_none());
    assert!(remove_server_text("not toml [[[", "a").is_err());
    let text = remove_server_text("x = 1\n[mcp_servers.a]\ncommand = \"x\"\n[mcp_servers.b]\ncommand = \"y\"\n", "a")
        .ok()
        .unwrap()
        .unwrap();
    assert!(text.contains("x = 1"), "{text}");
    assert!(!text.contains("[mcp_servers.a]"), "{text}");
    assert!(text.contains("[mcp_servers.b]"), "{text}");
}

#[test]
fn writing_twice_is_writing_once() {
    let servers = vec![server("svc", "tool", &["--flag"], &[("K", "v")])];
    let once = upsert_servers_text("model = \"o3\"\n", &servers).ok().unwrap();
    let twice = upsert_servers_text(&once, &servers).ok().unwrap();
    assert_eq!(once, twice);
    let back = remove_server_text(&once, "svc").ok().unwrap().unwrap();
    assert!(back.contains("model = \"o3\""), "{back}");
    assert!(!back.contains("svc"), "{back}");
}

#[test]
fn written_tables_are_shown_explicitly() {
    let text = upsert_servers_text("", &vec![server("svc", "tool", &[], &[])]).ok().unwrap();
    assert!(text.lines().any(|l| l == "[mcp_servers]"), "{text}");
    assert!(text.lines().any(|l| l == "[mcp_servers.svc]"), "{text}");

    let before = "[mcp_servers.other]\ncommand = \"x\"\n";
    assert!(!before.lines().any(|l| l == "[mcp_servers]"));
    let text = upsert_servers_text(before, &vec![server("svc", "tool", &[], &[])]).ok().unwrap();
    assert!(text.lines().any(|l| l == "[mcp_servers]"), "{text}");
    assert!(text.contains("[mcp_servers.other]"), "{text}");
}
