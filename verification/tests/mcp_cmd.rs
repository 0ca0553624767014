use codex_mcp::mcp_cmd::get_server_listing;
use codex_mcp::mcp_cmd::import_servers;
use codex_mcp::mcp_cmd::listing_line;
use codex_mcp::mcp_cmd::merge_scope_maps;
use codex_mcp::mcp_cmd::overlay_file_name;
use codex_mcp::mcp_cmd::parse_env_kv;
use codex_mcp::mcp_cmd::partition_import;
use codex_mcp::mcp_cmd::pick_with_scope;
use codex_mcp::mcp_cmd::plan_add;
use codex_mcp::mcp_cmd::plan_remove;
use codex_mcp::mcp_cmd::server_listing;
use codex_mcp::mcp_cmd::validate_server_name;
use codex_mcp::mcp_cmd::AddArgs;
use codex_mcp::mcp_cmd::AddError;
use codex_mcp::mcp_cmd::EnvArgError;
use codex_mcp::mcp_cmd::RemoveArgs;
use codex_mcp::mcp_cmd::ScopeArg;
use codex_mcp::mcp_toml::McpServerConfig;
use codex_mcp::mcp_toml::McpToml;
use codex_mcp::mcp_toml::McpTomlEntry;
use codex_mcp::mcp_toml::Scope;
use codex_mcp::server_map::lex_less;
use codex_mcp::server_map::ServerMap;

fn cfg(command: &str) -> McpServerConfig {
    McpServerConfig { command: command.to_string(), args: vec![], env: None }
}

fn map(entries: &[(&str, &str)]) -> ServerMap {
    let mut m = ServerMap::new();
    for (name, command) in entries {
        m.insert(name.to_string(), cfg(command));
    }
    m
}

fn strings(v: &[&str]) -> Vec<String> {
    v.iter().map(|s| s.to_string()).collect()
}

fn entry(command: Option<&str>) -> McpTomlEntry {
    McpTomlEntry { command: command.map(|c| c.to_string()), ..McpTomlEntry::empty() }
}

#[test]
fn local_wins_over_project_over_user() {
    let user = map(&[("svc", "user")]);
    let project = map(&[("svc", "project")]);
    let local = map(&[("svc", "local")]);
    let (scope, c, shadowed) = pick_with_scope("svc", &user, &project, &local);
    assert_eq!(scope, Scope::Local);
    assert_eq!(c.command, "local");
    assert_eq!(shadowed, vec![Scope::Project, Scope::User]);

    let empty = ServerMap::new();
    let (scope, c, shadowed) = pick_with_scope("svc", &user, &project, &empty);
    assert_eq!(scope, Scope::Project);
    assert_eq!(c.command, "project");
    assert_eq!(shadowed, vec![Scope::User]);

    let (scope, c, shadowed) = pick_with_scope("svc", &user, &empty, &empty);
    assert_eq!(scope, Scope::User);
    assert_eq!(c.command, "user");
    assert!(shadowed.is_empty());
}

#[test]
fn pick_of_unknown_name_falls_back_to_some_entry() {
    let user = map(&[("a", "cmd-a")]);
    let empty = ServerMap::new();
    let (scope, c, shadowed) = pick_with_scope("zzz", &user, &empty, &empty);
    assert_eq!(scope, Scope::User);
    assert_eq!(c.command, "cmd-a");
    assert!(shadowed.is_empty());
}

#[test]
fn listing_is_sorted_and_merged() {
    let user = map(&[("user_svc", "user-cmd"), ("b", "ub")]);
    let project = map(&[("proj_svc", "proj-cmd"), ("b", "pb")]);
    let local = map(&[("local_svc", "local-cmd")]);
    let listing = server_listing(&user, &project, &local);
    let names: Vec<&str> = listing.iter().map(|l| l.name.as_str()).collect();
    assert_eq!(names, vec!["b", "local_svc", "proj_svc", "user_svc"]);
    assert_eq!(listing[0].scope, Scope::Project);
    assert_eq!(listing[0].config.command, "pb");
    assert_eq!(listing[0].shadowed_by, vec![Scope::User]);
    assert_eq!(listing[1].scope, Scope::Local);
    assert_eq!(listing[2].scope, Scope::Project);
    assert_eq!(listing[3].scope, Scope::User);
    assert_eq!(listing[3].config.command, "user-cmd");
}

#[test]
fn get_reports_winning_scope_or_not_found() {
    let user = map(&[("svc", "user-cmd")]);
    let project = map(&[("svc", "project-cmd")]);
    let local = map(&[("svc", "local-cmd")]);
    let l = get_server_listing("svc", &user, &project, &local).unwrap();
    assert_eq!(l.name, "svc");
    assert_eq!(l.scope, Scope::Local);
    assert_eq!(l.config.command, "local-cmd");
    let err = get_server_listing("nope", &user, &project, &local).unwrap_err();
    assert_eq!(err.message(), "MCP server `nope` not found in any scope");
}

#[test]
fn listing_line_text() {
    let user = map(&[]);
    let mut project = ServerMap::new();
    project.insert(
        "svc".to_string(),
        McpServerConfig { command: "npx".to_string(), args: strings(&["-y", "pkg"]), env: None },
    );
    let local = map(&[("bare", "tool")]);
    let listing = server_listing(&user, &project, &local);
    assert_eq!(listing_line(&listing[0]), "bare [local] -> tool");
    assert_eq!(listing_line(&listing[1]), "svc [project] -> npx -y pkg");
}

#[test]
fn names_sort_like_strings() {
    assert!(lex_less("a", "b"));
    assert!(lex_less("a", "ab"));
    assert!(!lex_less("ab", "a"));
    assert!(!lex_less("a", "a"));
    assert!(lex_less("Z", "a"));
    assert!(lex_less("", "a"));
    assert!(lex_less("z", "é"));
}

#[test]
fn server_map_insert_replaces() {
    let mut m = ServerMap::new();
    m.insert("a".to_string(), cfg("1"));
    m.insert("b".to_string(), cfg("2"));
    m.insert("a".to_string(), cfg("3"));
    assert_eq!(m.len(), 2);
    assert_eq!(m.get("a").unwrap().command, "3");
    assert!(m.contains_key("b"));
    assert!(!m.contains_key("c"));
    assert!(m.get("c").is_none());
}

#[test]
fn merge_adds_converted_overlays_and_skips_failures() {
    let user = map(&[("svc", "user")]);
    let mut local = McpToml::empty();
    local.mcp_servers.push(("svc".to_string(), entry(Some("local"))));
    local.mcp_servers.push(("broken".to_string(), entry(Some("${MISSING}"))));
    let mut project = McpToml::empty();
    project.mcp_servers.push(("svc".to_string(), entry(Some("project"))));
    project.mcp_servers.push(("alpha".to_string(), entry(Some("${HOME}/alpha"))));
    project.mcp_servers.push(("nocmd".to_string(), entry(None)));
    let overlays = vec![(Scope::Local, local), (Scope::Project, project)];
    let env = vec![("HOME".to_string(), "/h".to_string())];
    let (u, p, l) = merge_scope_maps(user, &overlays, &env);
    assert_eq!(u.len(), 1);
    assert_eq!(u.get("svc").unwrap().command, "user");
    assert_eq!(p.len(), 2);
    assert_eq!(p.get("alpha").unwrap().command, "/h/alpha");
    assert_eq!(l.len(), 1);
    assert_eq!(l.get("svc").unwrap().command, "local");
    assert!(!l.contains_key("broken"));
    let winner = get_server_listing("svc", &u, &p, &l).unwrap();
    assert_eq!(winner.config.command, "local");
}

#[test]
fn server_names() {
    assert!(validate_server_name("my-svc_2").is_ok());
    assert!(validate_server_name("").is_err());
    let err = validate_server_name("bad name").unwrap_err();
    assert_eq!(err.message(), "invalid server name 'bad name': must match ^[a-zA-Z0-9_-]+$");
    assert!(validate_server_name("é").is_err());
}

#[test]
fn env_arguments() {
    let kv = parse_env_kv(&strings(&["A=1", "B=x=y", "A=2", "C="])).unwrap();
    assert_eq!(kv, vec![
        ("A".to_string(), "2".to_string()),
        ("B".to_string(), "x=y".to_string()),
        ("C".to_string(), String::new()),
    ]);
    match parse_env_kv(&strings(&["A=1", "NOEQ", "=v"])) {
        Err(EnvArgError::MissingEquals(p)) => assert_eq!(p, "NOEQ"),
        other => panic!("unexpected {other:?}"),
    }
    let err = parse_env_kv(&strings(&["=v"])).unwrap_err();
    assert_eq!(err.message(), "invalid --env '=v': empty key");
    let err = parse_env_kv(&strings(&["KV"])).unwrap_err();
    assert_eq!(err.message(), "invalid --env 'KV': expected KEY=VALUE");
    assert!(parse_env_kv(&vec![]).unwrap().is_empty());
}

#[test]
fn add_arguments() {
    let args = AddArgs {
        name: "svc".to_string(),
        scope: ScopeArg::Local,
        env: strings(&["K=V"]),
        cmd: strings(&["tool", "--flag", "x"]),
    };
    let s = plan_add(&args).unwrap();
    assert_eq!(s.name, "svc");
    assert_eq!(s.command, "tool");
    assert_eq!(s.args, strings(&["--flag", "x"]));
    assert_eq!(s.env, vec![("K".to_string(), "V".to_string())]);

    let bad_name = AddArgs { name: "bad name".to_string(), scope: ScopeArg::User, env: vec![], cmd: vec![] };
    assert!(matches!(plan_add(&bad_name), Err(AddError::InvalidName(_))));
    let no_cmd = AddArgs { name: "svc".to_string(), scope: ScopeArg::User, env: strings(&["bad"]), cmd: vec![] };
    let err = plan_add(&no_cmd).unwrap_err();
    assert!(matches!(err, AddError::MissingCommand));
    assert!(err.message().starts_with("missing server command; use: codex mcp add"));
    let bad_env = AddArgs { name: "svc".to_string(), scope: ScopeArg::User, env: strings(&["bad"]), cmd: strings(&["t"]) };
    assert!(matches!(plan_add(&bad_env), Err(AddError::Env(EnvArgError::MissingEquals(_)))));
}

#[test]
fn remove_plans() {
    let all = RemoveArgs { name: "s".to_string(), scope: None, all: true };
    assert_eq!(plan_remove(&all).unwrap(), vec![ScopeArg::User, ScopeArg::Project, ScopeArg::Local]);
    let both = RemoveArgs { name: "s".to_string(), scope: Some(ScopeArg::User), all: true };
    assert_eq!(plan_remove(&both).unwrap_err().message(), "cannot use --scope with --all");
    let default = RemoveArgs { name: "s".to_string(), scope: None, all: false };
    assert_eq!(plan_remove(&default).unwrap(), vec![ScopeArg::Local]);
    let project = RemoveArgs { name: "s".to_string(), scope: Some(ScopeArg::Project), all: false };
    assert_eq!(plan_remove(&project).unwrap(), vec![ScopeArg::Project]);
    assert_eq!(overlay_file_name(true), ".mcp.local.toml");
    assert_eq!(overlay_file_name(false), ".mcp.toml");
}

#[test]
fn import_filters_non_stdio_and_missing_command() {
    let ok = McpTomlEntry {
        type_: Some("stdio".to_string()),
        command: Some("tool".to_string()),
        args: strings(&["--x"]),
        env: vec![("K".to_string(), "V".to_string())],
    };
    let bad = McpTomlEntry { type_: Some("http".to_string()), ..McpTomlEntry::empty() };
    let missing = McpTomlEntry { type_: Some("stdio".to_string()), ..McpTomlEntry::empty() };
    let plan = partition_import(vec![
        ("ok".to_string(), ok),
        ("bad".to_string(), bad),
        ("missing".to_string(), missing),
    ]);
    assert_eq!(plan.accepted.len(), 1);
    assert_eq!(plan.accepted[0].0, "ok");
    assert_eq!(plan.rejected, vec![
        ("bad".to_string(), "unsupported transport `http`".to_string()),
        ("missing".to_string(), "missing command".to_string()),
    ]);
    let servers = import_servers(&plan.accepted);
    assert_eq!(servers.len(), 1);
    assert_eq!(servers[0].name, "ok");
    assert_eq!(servers[0].command, "tool");
    assert_eq!(servers[0].args, strings(&["--x"]));
    assert_eq!(servers[0].env, vec![("K".to_string(), "V".to_string())]);
}

#[test]
fn get_agrees_with_list_for_every_name() {
    let user = map(&[("a", "ua"), ("b", "ub"), ("c", "uc")]);
    let project = map(&[("b", "pb"), ("c", "pc")]);
    let local = map(&[("c", "lc"), ("d", "ld")]);
    let listing = server_listing(&user, &project, &local);
    assert_eq!(listing.len(), 4);
    for l in &listing {
        let g = get_server_listing(l.name.as_str(), &user, &project, &local).unwrap();
        assert_eq!(g.name, l.name);
        assert_eq!(g.scope, l.scope);
        assert_eq!(g.config.command, l.config.command);
        assert_eq!(g.shadowed_by, l.shadowed_by);
    }
}
