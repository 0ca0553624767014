//! The decisions behind `codex mcp`: the merged view of the user, project and
//! local scopes (precedence local > project > user), and the checks and
//! plans of the `add`, `remove` and `add-toml` subcommands.
use vstd::prelude::*;

use crate::expand::{env_view, expand_spec, ExpandFailure};
use crate::mcp_toml::{
    ascii_lowercase,
    clone_pairs, clone_strings, is_stdio, is_stdio_spec, to_mcp_server_config, ConfigFailure, McpServerConfig,
    McpToml, McpTomlEntry, Scope, ServerConfigView,
};
use crate::server_map::{is_value_of, distinct_keys, has_key, lemma_to_map_push, lemma_to_map_update, str_eq, strictly_sorted, to_map, ServerMap};
use crate::text::{chars_of, push_char, string_of_range};

verus! {

// ------------------------------------------------------------------
// Merged view
// ------------------------------------------------------------------

/// The scopes in which a server named `name` is shadowed by the winning one.
pub open spec fn shadowed_spec(
    name: Seq<char>,
    user: Map<Seq<char>, ServerConfigView>,
    project: Map<Seq<char>, ServerConfigView>,
    local: Map<Seq<char>, ServerConfigView>,
) -> Seq<Scope> {
    if local.contains_key(name) {
        (if project.contains_key(name) { seq![Scope::Project] } else { Seq::empty() })
            + (if user.contains_key(name) { seq![Scope::User] } else { Seq::empty() })
    } else if project.contains_key(name) {
        if user.contains_key(name) { seq![Scope::User] } else { Seq::empty() }
    } else {
        Seq::empty()
    }
}

/// The scope whose definition of `name` wins: local, then project, then user.
pub open spec fn winning_scope(
    name: Seq<char>,
    project: Map<Seq<char>, ServerConfigView>,
    local: Map<Seq<char>, ServerConfigView>,
) -> Scope {
    if local.contains_key(name) {
        Scope::Local
    } else if project.contains_key(name) {
        Scope::Project
    } else {
        Scope::User
    }
}

/// The winning definition of `name`.
pub open spec fn winning_config(
    name: Seq<char>,
    user: Map<Seq<char>, ServerConfigView>,
    project: Map<Seq<char>, ServerConfigView>,
    local: Map<Seq<char>, ServerConfigView>,
) -> ServerConfigView {
    if local.contains_key(name) {
        local[name]
    } else if project.contains_key(name) {
        project[name]
    } else {
        user[name]
    }
}

pub open spec fn in_any(
    name: Seq<char>,
    user: Map<Seq<char>, ServerConfigView>,
    project: Map<Seq<char>, ServerConfigView>,
    local: Map<Seq<char>, ServerConfigView>,
) -> bool {
    user.contains_key(name) || project.contains_key(name) || local.contains_key(name)
}

/// Picks the definition of `name` that wins across the three scopes, with the
/// scopes it shadows. When no scope defines `name`, some definition of the
/// first non-empty table (user, then project, then local) is returned,
/// labelled as the user's.
pub fn pick_with_scope<'a>(
    name: &str,
    user_map: &'a ServerMap,
    project_map: &'a ServerMap,
    local_map: &'a ServerMap,
) -> (r: (Scope, &'a McpServerConfig, Vec<Scope>))
    requires
        user_map.wf(),
        project_map.wf(),
        local_map.wf(),
        in_any(name@, user_map@, project_map@, local_map@) || user_map@.dom().len() > 0
            || project_map@.dom().len() > 0 || local_map@.dom().len() > 0,
    ensures
        in_any(name@, user_map@, project_map@, local_map@) ==> {
            &&& r.0 == winning_scope(name@, project_map@, local_map@)
            &&& r.1@ == winning_config(name@, user_map@, project_map@, local_map@)
            &&& r.2@ == shadowed_spec(name@, user_map@, project_map@, local_map@)
        },
        !in_any(name@, user_map@, project_map@, local_map@) ==> {
            &&& r.0 == Scope::User
            &&& r.2@ == Seq::<Scope>::empty()
            &&& if user_map@.dom() != Set::<Seq<char>>::empty() {
                is_value_of(user_map@, r.1@)
            } else if project_map@.dom() != Set::<Seq<char>>::empty() {
                is_value_of(project_map@, r.1@)
            } else {
                is_value_of(local_map@, r.1@)
            }
        },
{
    if let Some(cfg) = local_map.get(name) {
        let mut shadowed: Vec<Scope> = Vec::new();
        if project_map.contains_key(name) {
            shadowed.push(Scope::Project);
        }
        if user_map.contains_key(name) {
            shadowed.push(Scope::User);
        }
        assert(shadowed@ =~= shadowed_spec(name@, user_map@, project_map@, local_map@));
        (Scope::Local, cfg, shadowed)
    } else if let Some(cfg) = project_map.get(name) {
        let mut shadowed: Vec<Scope> = Vec::new();
        if user_map.contains_key(name) {
            shadowed.push(Scope::User);
        }
        assert(shadowed@ =~= shadowed_spec(name@, user_map@, project_map@, local_map@));
        (Scope::Project, cfg, shadowed)
    } else if let Some(cfg) = user_map.get(name) {
        (Scope::User, cfg, Vec::new())
    } else {
        let fallback = match user_map.first() {
            Some(c) => c,
            None => match project_map.first() {
                Some(c) => c,
                None => match local_map.first() {
                    Some(c) => c,
                    None => {
                        proof {
                            assert(user_map@.dom().len() == 0);
                            assert(project_map@.dom().len() == 0);
                            assert(local_map@.dom().len() == 0);
                        }
                        vstd::pervasive::unreached()
                    },
                },
            },
        };
        (Scope::User, fallback, Vec::new())
    }
}

/// One server of the merged view: its winning scope and definition, and the
/// scopes that it shadows.
#[derive(Debug)]
pub struct ServerListing {
    pub name: String,
    pub scope: Scope,
    pub config: McpServerConfig,
    pub shadowed_by: Vec<Scope>,
}

impl ServerListing {
    /// This listing shows the merged definition of `name`.
    pub open spec fn shows(
        &self,
        name: Seq<char>,
        user: Map<Seq<char>, ServerConfigView>,
        project: Map<Seq<char>, ServerConfigView>,
        local: Map<Seq<char>, ServerConfigView>,
    ) -> bool {
        &&& self.name@ == name
        &&& self.scope == winning_scope(name, project, local)
        &&& self.config@ == winning_config(name, user, project, local)
        &&& self.shadowed_by@ == shadowed_spec(name, user, project, local)
    }
}

fn listing_for(name: String, user_map: &ServerMap, project_map: &ServerMap, local_map: &ServerMap) -> (r: ServerListing)
    requires
        user_map.wf(),
        project_map.wf(),
        local_map.wf(),
        in_any(name@, user_map@, project_map@, local_map@),
    ensures
        r.shows(name@, user_map@, project_map@, local_map@),
{
    let (scope, cfg, shadowed_by) = pick_with_scope(name.as_str(), user_map, project_map, local_map);
    ServerListing { name, scope, config: cfg.duplicate(), shadowed_by }
}

/// The merged view of all servers: one listing per name defined in any
/// scope, in increasing order of names.
pub fn server_listing(user_map: &ServerMap, project_map: &ServerMap, local_map: &ServerMap) -> (r: Vec<ServerListing>)
    requires
        user_map.wf(),
        project_map.wf(),
        local_map.wf(),
    ensures
        strictly_sorted(r@.map_values(|l: ServerListing| l.name@)),
        r@.map_values(|l: ServerListing| l.name@).to_set() == user_map@.dom().union(project_map@.dom()).union(local_map@.dom()),
        forall|i: int| 0 <= i < r@.len() ==> (#[trigger] r@[i]).shows(r@[i].name@, user_map@, project_map@, local_map@),
{
    let mut names: Vec<String> = Vec::new();
    assert(names.deep_view().to_set() =~= Set::<Seq<char>>::empty());
    user_map.add_names_sorted(&mut names);
    project_map.add_names_sorted(&mut names);
    local_map.add_names_sorted(&mut names);
    let ghost all = user_map@.dom().union(project_map@.dom()).union(local_map@.dom());
    assert(names.deep_view().to_set() =~= all);
    let mut out: Vec<ServerListing> = Vec::new();
    let mut i: usize = 0;
    while i < names.len()
        invariant
            i <= names@.len(),
            strictly_sorted(names.deep_view()),
            names.deep_view().to_set() == all,
            all == user_map@.dom().union(project_map@.dom()).union(local_map@.dom()),
            user_map.wf(),
            project_map.wf(),
            local_map.wf(),
            out@.len() == i,
            forall|j: int| 0 <= j < i ==> (#[trigger] out@[j]).name@ == names.deep_view()[j],
            forall|j: int| 0 <= j < i ==> (#[trigger] out@[j]).shows(out@[j].name@, user_map@, project_map@, local_map@),
        decreases names.len() - i,
    {
        assert(names.deep_view().to_set().contains(names.deep_view()[i as int]));
        let listing = listing_for(names[i].clone(), user_map, project_map, local_map);
        out.push(listing);
        i = i + 1;
    }
    assert(out@.map_values(|l: ServerListing| l.name@) =~= names.deep_view());
    out
}

/// `name` is defined in no scope.
#[derive(Debug)]
pub struct NotFoundError {
    pub name: String,
}

impl NotFoundError {
    pub open spec fn message_spec(&self) -> Seq<char> {
        "MCP server `"@ + self.name@ + "` not found in any scope"@
    }

    pub fn message(&self) -> (r: String)
        ensures
            r@ == self.message_spec(),
    {
        let mut r = String::from_str("MCP server `");
        r.append(self.name.as_str());
        r.append("` not found in any scope");
        r
    }
}

/// The merged definition of `name`, or an error when no scope defines it.
pub fn get_server_listing(name: &str, user_map: &ServerMap, project_map: &ServerMap, local_map: &ServerMap) -> (r: Result<ServerListing, NotFoundError>)
    requires
        user_map.wf(),
        project_map.wf(),
        local_map.wf(),
    ensures
        match r {
            Ok(l) => in_any(name@, user_map@, project_map@, local_map@) && l.shows(name@, user_map@, project_map@, local_map@),
            Err(e) => !in_any(name@, user_map@, project_map@, local_map@) && e.name@ == name@,
        },
{
    if !user_map.contains_key(name) && !project_map.contains_key(name) && !local_map.contains_key(name) {
        return Err(NotFoundError { name: String::from_str(name) });
    }
    Ok(listing_for(String::from_str(name), user_map, project_map, local_map))
}

/// `parts` joined with `sep` between consecutive parts.
pub open spec fn join(parts: Seq<Seq<char>>, sep: Seq<char>) -> Seq<char>
    decreases parts.len(),
{
    if parts.len() == 0 {
        Seq::empty()
    } else if parts.len() == 1 {
        parts[0]
    } else {
        join(parts.drop_last(), sep) + sep + parts.last()
    }
}

/// The one-line text form of a listing: `NAME [SCOPE] -> COMMAND ARGS...`.
pub open spec fn listing_line_spec(name: Seq<char>, scope: Scope, cfg: ServerConfigView) -> Seq<char> {
    name + " ["@ + scope.name_spec() + "] -> "@ + cfg.command + (if cfg.args.len() == 0 {
        Seq::<char>::empty()
    } else {
        " "@ + join(cfg.args, " "@)
    })
}

/// The one-line text form of a listing.
pub fn listing_line(l: &ServerListing) -> (r: String)
    ensures
        r@ == listing_line_spec(l.name@, l.scope, l.config@),
{
    let mut r = String::new();
    r.append(l.name.as_str());
    r.append(" [");
    r.append(l.scope.as_str());
    r.append("] -> ");
    r.append(l.config.command.as_str());
    let ghost head = r@;
    let args = &l.config.args;
    let ghost a = args.deep_view();
    if args.len() > 0 {
        let mut i: usize = 0;
        while i < args.len()
            invariant
                i <= args@.len(),
                a == args.deep_view(),
                i == 0 ==> r@ == head,
                i > 0 ==> r@ == head + " "@ + join(a.take(i as int), " "@),
            decreases args.len() - i,
        {
            r.append(" ");
            r.append(args[i].as_str());
            proof {
                if i > 0 {
                    assert(a.take(i + 1).drop_last() =~= a.take(i as int));
                } else {
                    assert(a.take(1) =~= seq![a[0]]);
                }
                assert(r@ =~= head + " "@ + join(a.take(i + 1), " "@));
            }
            i = i + 1;
        }
        assert(a.take(a.len() as int) =~= a);
    }
    assert(r@ =~= listing_line_spec(l.name@, l.scope, l.config@));
    r
}

// ------------------------------------------------------------------
// Merging the overlays into the scope tables
// ------------------------------------------------------------------

/// The servers of an overlay file, each with the file's scope.
pub open spec fn overlay_items(o: (Scope, McpToml)) -> Seq<(Scope, Seq<char>, McpTomlEntry)> {
    o.1.mcp_servers@.map_values(|p: (String, McpTomlEntry)| (o.0, p.0@, p.1))
}

/// The servers of all overlay files, in order.
pub open spec fn all_items(os: Seq<(Scope, McpToml)>) -> Seq<(Scope, Seq<char>, McpTomlEntry)>
    decreases os.len(),
{
    if os.len() == 0 {
        Seq::empty()
    } else {
        all_items(os.drop_last()) + overlay_items(os.last())
    }
}

pub struct ScopeMaps {
    pub user: Map<Seq<char>, ServerConfigView>,
    pub project: Map<Seq<char>, ServerConfigView>,
    pub local: Map<Seq<char>, ServerConfigView>,
}

/// The tables after adding each item in turn: an item whose conversion
/// succeeds is set in the table of its scope, replacing any earlier definition;
/// an item whose conversion fails is skipped.
pub open spec fn merge_spec(start: ScopeMaps, items: Seq<(Scope, Seq<char>, McpTomlEntry)>, env: Seq<(Seq<char>, Seq<char>)>) -> ScopeMaps
    decreases items.len(),
{
    if items.len() == 0 {
        start
    } else {
        let m = merge_spec(start, items.drop_last(), env);
        let (scope, name, entry) = items.last();
        match entry.convert(env) {
            Ok(cfg) => match scope {
                Scope::User => ScopeMaps { user: m.user.insert(name, cfg), ..m },
                Scope::Project => ScopeMaps { project: m.project.insert(name, cfg), ..m },
                Scope::Local => ScopeMaps { local: m.local.insert(name, cfg), ..m },
            },
            Err(_) => m,
        }
    }
}

/// Builds the user, project and local tables: starting from the user table,
/// each overlay server whose conversion (with variables looked up in
/// `lookup`) succeeds is added to the table of its overlay's scope; the
/// others are skipped.
pub fn merge_scope_maps(user_map: ServerMap, overlays: &Vec<(Scope, McpToml)>, lookup: &[(String, String)]) -> (r: (ServerMap, ServerMap, ServerMap))
    requires
        user_map.wf(),
    ensures
        r.0.wf(),
        r.1.wf(),
        r.2.wf(),
        ({
            let m = merge_spec(
                ScopeMaps { user: user_map@, project: Map::empty(), local: Map::empty() },
                all_items(overlays@),
                env_view(lookup),
            );
            r.0@ == m.user && r.1@ == m.project && r.2@ == m.local
        }),
{
    let ghost start = ScopeMaps { user: user_map@, project: Map::empty(), local: Map::empty() };
    let ghost env = env_view(lookup);
    let mut user = user_map;
    let mut project = ServerMap::new();
    let mut local = ServerMap::new();
    let mut o: usize = 0;
    assert(overlays@.take(0) =~= Seq::<(Scope, McpToml)>::empty());
    while o < overlays.len()
        invariant
            o <= overlays@.len(),
            env == env_view(lookup),
            user.wf(),
            project.wf(),
            local.wf(),
            ({
                let m = merge_spec(start, all_items(overlays@.take(o as int)), env);
                user@ == m.user && project@ == m.project && local@ == m.local
            }),
        decreases overlays.len() - o,
    {
        let scope = overlays[o].0;
        let servers = &overlays[o].1.mcp_servers;
        let ghost before = all_items(overlays@.take(o as int));
        let ghost items = overlay_items(overlays@[o as int]);
        let mut e: usize = 0;
        assert(before + items.take(0) =~= before);
        while e < servers.len()
            invariant
                e <= servers@.len(),
                servers@ == overlays@[o as int].1.mcp_servers@,
                scope == overlays@[o as int].0,
                items == overlay_items(overlays@[o as int]),
                env == env_view(lookup),
                user.wf(),
                project.wf(),
                local.wf(),
                ({
                    let m = merge_spec(start, before + items.take(e as int), env);
                    user@ == m.user && project@ == m.project && local@ == m.local
                }),
            decreases servers.len() - e,
        {
            let name = &servers[e].0;
            let entry = &servers[e].1;
            assert((before + items.take(e + 1)).drop_last() =~= before + items.take(e as int));
            assert((before + items.take(e + 1)).last() == (scope, name@, *entry));
            match to_mcp_server_config(entry, lookup) {
                Ok(cfg) => {
                    match scope {
                        Scope::Project => project.insert(name.clone(), cfg),
                        Scope::Local => local.insert(name.clone(), cfg),
                        Scope::User => user.insert(name.clone(), cfg),
                    }
                },
                Err(_) => {},
            }
            e = e + 1;
        }
        assert(items.take(items.len() as int) =~= items);
        assert(overlays@.take(o + 1).drop_last() =~= overlays@.take(o as int));
        assert(overlays@.take(o + 1).last() == overlays@[o as int]);
        o = o + 1;
    }
    assert(overlays@.take(overlays@.len() as int) =~= overlays@);
    (user, project, local)
}

// ------------------------------------------------------------------
// Names and `--env` arguments
// ------------------------------------------------------------------

/// A server name must match `^[a-zA-Z0-9_-]+$`.
pub open spec fn server_name_char(c: char) -> bool {
    ('a' <= c && c <= 'z') || ('A' <= c && c <= 'Z') || ('0' <= c && c <= '9') || c == '_' || c == '-'
}

pub open spec fn valid_server_name(name: Seq<char>) -> bool {
    name.len() > 0 && forall|i: int| 0 <= i < name.len() ==> #[trigger] server_name_char(name[i])
}

/// The server name is not of the form `^[a-zA-Z0-9_-]+$`.
#[derive(Debug)]
pub struct InvalidServerName {
    pub name: String,
}

impl InvalidServerName {
    pub open spec fn message_spec(&self) -> Seq<char> {
        "invalid server name '"@ + self.name@ + "': must match ^[a-zA-Z0-9_-]+$"@
    }

    pub fn message(&self) -> (r: String)
        ensures
            r@ == self.message_spec(),
    {
        let mut r = String::from_str("invalid server name '");
        r.append(self.name.as_str());
        r.append("': must match ^[a-zA-Z0-9_-]+$");
        r
    }
}

/// Accepts exactly the names that match `^[a-zA-Z0-9_-]+$`.
pub fn validate_server_name(name: &str) -> (r: Result<(), InvalidServerName>)
    ensures
        r is Ok <==> valid_server_name(name@),
        r matches Err(e) ==> e.name@ == name@,
{
    let chars = chars_of(name);
    let mut ok = chars.len() > 0;
    let mut i: usize = 0;
    while i < chars.len()
        invariant
            i <= chars@.len(),
            chars@ == name@,
            ok == (chars@.len() > 0 && forall|j: int| 0 <= j < i ==> #[trigger] server_name_char(chars@[j])),
        decreases chars.len() - i,
    {
        let c = chars[i];
        let good = (c >= 'a' && c <= 'z') || (c >= 'A' && c <= 'Z') || (c >= '0' && c <= '9') || c == '_' || c == '-';
        assert(good == server_name_char(chars@[i as int]));
        ok = ok && good;
        i = i + 1;
        assert((forall|j: int| 0 <= j < i ==> #[trigger] server_name_char(chars@[j])) ==
            ((forall|j: int| 0 <= j < i - 1 ==> #[trigger] server_name_char(chars@[j])) && server_name_char(chars@[i - 1])));
    }
    if ok {
        Ok(())
    } else {
        Err(InvalidServerName { name: String::from_str(name) })
    }
}

/// Index of the first `=` in `s`, if any.
pub open spec fn first_eq(s: Seq<char>) -> Option<int> {
    if exists|i: int| 0 <= i < s.len() && s[i] == '=' {
        Some(choose|i: int| 0 <= i < s.len() && s[i] == '=' && forall|j: int| 0 <= j < i ==> s[j] != '=')
    } else {
        None
    }
}

/// Why an `--env` argument was refused.
#[derive(Debug)]
pub enum EnvArgError {
    /// No `=` in the argument.
    MissingEquals(String),
    /// Nothing before the first `=`.
    EmptyKey(String),
}

impl EnvArgError {
    pub open spec fn message_spec(&self) -> Seq<char> {
        match *self {
            EnvArgError::MissingEquals(p) => "invalid --env '"@ + p@ + "': expected KEY=VALUE"@,
            EnvArgError::EmptyKey(p) => "invalid --env '"@ + p@ + "': empty key"@,
        }
    }

    pub fn message(&self) -> (r: String)
        ensures
            r@ == self.message_spec(),
    {
        match self {
            EnvArgError::MissingEquals(p) => {
                let mut r = String::from_str("invalid --env '");
                r.append(p.as_str());
                r.append("': expected KEY=VALUE");
                r
            },
            EnvArgError::EmptyKey(p) => {
                let mut r = String::from_str("invalid --env '");
                r.append(p.as_str());
                r.append("': empty key");
                r
            },
        }
    }
}

/// The outcome of reading `KEY=VALUE` arguments: the first refused argument,
/// or the map in which each key has the value of its last argument.
pub open spec fn env_args_spec(items: Seq<Seq<char>>) -> Result<Map<Seq<char>, Seq<char>>, EnvArgFailure>
    decreases items.len(),
{
    if items.len() == 0 {
        Ok(Map::empty())
    } else {
        match env_args_spec(items.drop_last()) {
            Err(e) => Err(e),
            Ok(m) => {
                let p = items.last();
                match first_eq(p) {
                    None => Err(EnvArgFailure::MissingEquals(p)),
                    Some(k) => if k == 0 {
                        Err(EnvArgFailure::EmptyKey(p))
                    } else {
                        Ok(m.insert(p.subrange(0, k), p.subrange(k + 1, p.len() as int)))
                    },
                }
            },
        }
    }
}

pub enum EnvArgFailure {
    MissingEquals(Seq<char>),
    EmptyKey(Seq<char>),
}

impl EnvArgError {
    pub open spec fn describes(&self, f: EnvArgFailure) -> bool {
        match (*self, f) {
            (EnvArgError::MissingEquals(p), EnvArgFailure::MissingEquals(q)) => p@ == q,
            (EnvArgError::EmptyKey(p), EnvArgFailure::EmptyKey(q)) => p@ == q,
            _ => false,
        }
    }
}

proof fn lemma_env_args_err_stays(items: Seq<Seq<char>>, i: int, j: int)
    requires
        0 <= i <= j <= items.len(),
        env_args_spec(items.take(i)) is Err,
    ensures
        env_args_spec(items.take(j)) == env_args_spec(items.take(i)),
    decreases j - i,
{
    if i < j {
        lemma_env_args_err_stays(items, i, j - 1);
        assert(items.take(j).drop_last() =~= items.take(j - 1));
    }
}

/// Sets `k` to `v` in the pair list `out`, keeping its keys distinct.
fn assign_pair(out: &mut Vec<(String, String)>, k: String, v: String)
    requires
        distinct_keys(old(out).deep_view()),
    ensures
        distinct_keys(final(out).deep_view()),
        to_map(final(out).deep_view()) == to_map(old(out).deep_view()).insert(k@, v@),
{
    let ghost old_v = out.deep_view();
    let mut i: usize = 0;
    while i < out.len()
        invariant
            i <= out@.len(),
            out.deep_view() == old_v,
            old_v == old(out).deep_view(),
            distinct_keys(old_v),
            forall|j: int| 0 <= j < i ==> (#[trigger] old_v[j]).0 != k@,
        decreases out.len() - i,
    {
        if out[i].0 == k {
            let ghost vv = v@;
            let ghost kk = k@;
            assert(old_v[i as int].0 == kk);
            out.set(i, (k, v));
            proof {
                assert(out.deep_view() =~= old_v.update(i as int, (old_v[i as int].0, vv)));
                lemma_to_map_update(old_v, i as int, vv);
                assert(to_map(out.deep_view()) == to_map(old_v).insert(kk, vv));
            }
            return;
        }
        i = i + 1;
    }
    let ghost kk = k@;
    let ghost vv = v@;
    out.push((k, v));
    proof {
        assert(out.deep_view() =~= old_v.push((kk, vv)));
        assert(!has_key(old_v, kk));
        lemma_to_map_push(old_v, kk, vv);
    }
}

/// Reads `KEY=VALUE` arguments (split at the first `=`) into a list of pairs
/// with distinct keys, each key with the value of its last argument. An
/// argument without `=`, or with nothing before it, is refused.
pub fn parse_env_kv(pairs: &Vec<String>) -> (r: Result<Vec<(String, String)>, EnvArgError>)
    ensures
        match r {
            Ok(v) => distinct_keys(v.deep_view()) && env_args_spec(pairs.deep_view()) == Ok::<Map<Seq<char>, Seq<char>>, EnvArgFailure>(to_map(v.deep_view())),
            Err(e) => env_args_spec(pairs.deep_view()) matches Err(f) && e.describes(f),
        },
{
    let ghost items = pairs.deep_view();
    let mut out: Vec<(String, String)> = Vec::new();
    let mut i: usize = 0;
    assert(items.take(0) =~= Seq::<Seq<char>>::empty());
    assert(to_map(out.deep_view()) =~= Map::<Seq<char>, Seq<char>>::empty());
    while i < pairs.len()
        invariant
            i <= pairs@.len(),
            items == pairs.deep_view(),
            distinct_keys(out.deep_view()),
            env_args_spec(items.take(i as int)) == Ok::<Map<Seq<char>, Seq<char>>, EnvArgFailure>(to_map(out.deep_view())),
        decreases pairs.len() - i,
    {
        let p = &pairs[i];
        let chars = chars_of(p.as_str());
        assert(items.take(i + 1).drop_last() =~= items.take(i as int));
        assert(items.take(i + 1).last() == chars@);
        let mut k: usize = 0;
        while k < chars.len() && chars[k] != '='
            invariant
                k <= chars@.len(),
                forall|j: int| 0 <= j < k ==> chars@[j] != '=',
            decreases chars.len() - k,
        {
            k = k + 1;
        }
        if k == chars.len() {
            proof {
                assert(!exists|j: int| 0 <= j < chars@.len() && chars@[j] == '=');
                lemma_env_args_err_stays(items, i + 1, items.len() as int);
                assert(items.take(items.len() as int) =~= items);
            }
            return Err(EnvArgError::MissingEquals(p.clone()));
        }
        proof {
            let w = choose|j: int| 0 <= j < chars@.len() && chars@[j] == '=' && forall|j2: int| 0 <= j2 < j ==> chars@[j2] != '=';
            assert(chars@[k as int] == '=');
            if w < k {
                assert(chars@[w] != '=');
            } else if w > k {
                assert(chars@[k as int] != '=');
            }
            assert(first_eq(chars@) == Some(k as int));
        }
        if k == 0 {
            proof {
                lemma_env_args_err_stays(items, i + 1, items.len() as int);
                assert(items.take(items.len() as int) =~= items);
            }
            return Err(EnvArgError::EmptyKey(p.clone()));
        }
        let key = string_of_range(&chars, 0, k);
        let value = string_of_range(&chars, k + 1, chars.len());
        assign_pair(&mut out, key, value);
        i = i + 1;
    }
    assert(items.take(items.len() as int) =~= items);
    Ok(out)
}

// ------------------------------------------------------------------
// Subcommands
// ------------------------------------------------------------------

/// The scope a subcommand writes to.
#[derive(Debug, Clone, Copy, PartialEq, Eq, Structural)]
pub enum ScopeArg {
    Local,
    Project,
    User,
}

impl ScopeArg {
    pub open spec fn name_spec(self) -> Seq<char> {
        match self {
            ScopeArg::Local => "local"@,
            ScopeArg::Project => "project"@,
            ScopeArg::User => "user"@,
        }
    }

    /// The scope's name: `local`, `project` or `user`.
    pub fn as_str(&self) -> (r: &'static str)
        ensures
            r@ == self.name_spec(),
    {
        match self {
            ScopeArg::Local => "local",
            ScopeArg::Project => "project",
            ScopeArg::User => "user",
        }
    }
}

/// Arguments of `codex mcp add`.
#[derive(Debug)]
pub struct AddArgs {
    /// Unique server name (`^[A-Za-z0-9_-]+$`).
    pub name: String,
    /// Target scope.
    pub scope: ScopeArg,
    /// Environment variables `KEY=VALUE`.
    pub env: Vec<String>,
    /// Command and arguments that launch the server.
    pub cmd: Vec<String>,
}

/// Arguments of `codex mcp remove`.
#[derive(Debug)]
pub struct RemoveArgs {
    pub name: String,
    /// Scope to remove from (local when absent, unless `all`).
    pub scope: Option<ScopeArg>,
    /// Remove from all scopes.
    pub all: bool,
}

/// Arguments of `codex mcp add-toml`.
#[derive(Debug)]
pub struct AddTomlArgs {
    /// Path of a TOML file with an `[mcp_servers]` table.
    pub path: String,
    /// Target scope.
    pub scope: ScopeArg,
}

/// The subcommands of `codex mcp`.
#[derive(Debug)]
pub enum McpSub {
    /// Run Codex as an MCP server.
    Serve,
    /// List the merged view.
    List { json: bool },
    /// Show one server of the merged view.
    Get { name: String, json: bool },
    /// Add a stdio server to a scope.
    Add(AddArgs),
    /// Remove a server from a scope or from all scopes.
    Remove(RemoveArgs),
    /// Import servers from a TOML file.
    AddToml(AddTomlArgs),
}

/// A server definition to be written into a scope's file.
#[derive(Debug)]
pub struct NewServer {
    pub name: String,
    pub command: String,
    pub args: Vec<String>,
    /// Environment entries with distinct names (none: no `env` table).
    pub env: Vec<(String, String)>,
}

impl NewServer {
    /// No environment name occurs twice.
    pub open spec fn wf(&self) -> bool {
        distinct_keys(self.env.deep_view())
    }
}

/// Why `codex mcp add` refused its arguments.
#[derive(Debug)]
pub enum AddError {
    InvalidName(InvalidServerName),
    MissingCommand,
    Env(EnvArgError),
}

impl AddError {
    pub open spec fn message_spec(&self) -> Seq<char> {
        match *self {
            AddError::InvalidName(e) => e.message_spec(),
            AddError::MissingCommand => "missing server command; use: codex mcp add <name> [--scope ...] [--env KEY=VALUE]... -- <command> [args...]"@,
            AddError::Env(e) => e.message_spec(),
        }
    }

    pub fn message(&self) -> (r: String)
        ensures
            r@ == self.message_spec(),
    {
        match self {
            AddError::InvalidName(e) => e.message(),
            AddError::MissingCommand => String::from_str(
                "missing server command; use: codex mcp add <name> [--scope ...] [--env KEY=VALUE]... -- <command> [args...]",
            ),
            AddError::Env(e) => e.message(),
        }
    }
}

/// Checks the arguments of `codex mcp add` and makes the definition to write:
/// the name must be valid, then a command must be given (its first word is
/// the command, the rest its arguments), then every `--env` must be `KEY=VALUE`.
pub fn plan_add(args: &AddArgs) -> (r: Result<NewServer, AddError>)
    ensures
        match r {
            Ok(s) => {
                &&& valid_server_name(args.name@)
                &&& args.cmd@.len() > 0
                &&& s.name@ == args.name@
                &&& s.command@ == args.cmd@[0]@
                &&& s.args.deep_view() == args.cmd.deep_view().drop_first()
                &&& s.wf()
                &&& env_args_spec(args.env.deep_view()) == Ok::<Map<Seq<char>, Seq<char>>, EnvArgFailure>(to_map(s.env.deep_view()))
            },
            Err(AddError::InvalidName(e)) => !valid_server_name(args.name@) && e.name@ == args.name@,
            Err(AddError::MissingCommand) => valid_server_name(args.name@) && args.cmd@.len() == 0,
            Err(AddError::Env(e)) => {
                &&& valid_server_name(args.name@)
                &&& args.cmd@.len() > 0
                &&& env_args_spec(args.env.deep_view()) matches Err(f) && e.describes(f)
            },
        },
{
    if let Err(e) = validate_server_name(args.name.as_str()) {
        return Err(AddError::InvalidName(e));
    }
    if args.cmd.len() == 0 {
        return Err(AddError::MissingCommand);
    }
    let command = args.cmd[0].clone();
    let mut rest: Vec<String> = Vec::new();
    let mut i: usize = 1;
    while i < args.cmd.len()
        invariant
            1 <= i <= args.cmd@.len(),
            rest@.len() == i - 1,
            forall|j: int| 0 <= j < i - 1 ==> (#[trigger] rest@[j])@ == args.cmd@[j + 1]@,
        decreases args.cmd.len() - i,
    {
        rest.push(args.cmd[i].clone());
        i = i + 1;
    }
    assert(rest.deep_view() =~= args.cmd.deep_view().drop_first());
    let env = match parse_env_kv(&args.env) {
        Ok(e) => e,
        Err(e) => {
            return Err(AddError::Env(e));
        },
    };
    Ok(NewServer { name: args.name.clone(), command, args: rest, env })
}

/// `--scope` was given together with `--all`.
#[derive(Debug)]
pub struct ScopeWithAllError;

impl ScopeWithAllError {
    pub fn message(&self) -> (r: String)
        ensures
            r@ == "cannot use --scope with --all"@,
    {
        String::from_str("cannot use --scope with --all")
    }
}

/// The scopes `codex mcp remove` removes from, in order: all three (user,
/// project, local) with `--all`, else the given scope or local.
pub fn plan_remove(args: &RemoveArgs) -> (r: Result<Vec<ScopeArg>, ScopeWithAllError>)
    ensures
        r is Err <==> (args.all && args.scope is Some),
        r matches Ok(v) ==> v@ == (if args.all {
            seq![ScopeArg::User, ScopeArg::Project, ScopeArg::Local]
        } else {
            seq![match args.scope { Some(s) => s, None => ScopeArg::Local }]
        }),
{
    if args.all && args.scope.is_some() {
        return Err(ScopeWithAllError);
    }
    let mut v: Vec<ScopeArg> = Vec::new();
    if args.all {
        v.push(ScopeArg::User);
        v.push(ScopeArg::Project);
        v.push(ScopeArg::Local);
    } else {
        v.push(match args.scope { Some(s) => s, None => ScopeArg::Local });
    }
    assert(v@ =~= (if args.all {
        seq![ScopeArg::User, ScopeArg::Project, ScopeArg::Local]
    } else {
        seq![match args.scope { Some(s) => s, None => ScopeArg::Local }]
    }));
    Ok(v)
}

/// The name of the overlay file of the local or the project scope.
pub fn overlay_file_name(local: bool) -> (r: &'static str)
    ensures
        r@ == (if local { ".mcp.local.toml"@ } else { ".mcp.toml"@ }),
{
    if local { ".mcp.local.toml" } else { ".mcp.toml" }
}

/// Whether `codex mcp add-toml` imports an entry: its transport is absent or
/// `stdio` (any letter case) and it has a command.
pub open spec fn importable(e: McpTomlEntry) -> bool {
    (e.type_ is None || is_stdio_spec(e.type_->0@)) && e.command is Some
}

/// Why `codex mcp add-toml` skips an entry.
pub open spec fn skip_reason(e: McpTomlEntry) -> Seq<char> {
    if e.type_ is Some && !is_stdio_spec(e.type_->0@) {
        "unsupported transport `"@ + e.type_->0@ + "`"@
    } else {
        "missing command"@
    }
}

/// The entries of an import split into those written and those skipped, each
/// list in input order; a skipped entry comes with the reason.
#[derive(Debug)]
pub struct ImportPlan {
    pub accepted: Vec<(String, McpTomlEntry)>,
    pub rejected: Vec<(String, String)>,
}

/// The entries of `s` that an import writes, in order.
pub open spec fn accepted_of(s: Seq<(String, McpTomlEntry)>) -> Seq<(String, McpTomlEntry)>
    decreases s.len(),
{
    if s.len() == 0 {
        Seq::empty()
    } else if importable(s.last().1) {
        accepted_of(s.drop_last()).push(s.last())
    } else {
        accepted_of(s.drop_last())
    }
}

/// The names of the entries of `s` that an import skips, each with the reason, in order.
pub open spec fn rejected_of(s: Seq<(String, McpTomlEntry)>) -> Seq<(Seq<char>, Seq<char>)>
    decreases s.len(),
{
    if s.len() == 0 {
        Seq::empty()
    } else if importable(s.last().1) {
        rejected_of(s.drop_last())
    } else {
        rejected_of(s.drop_last()).push((s.last().0@, skip_reason(s.last().1)))
    }
}

/// Splits the servers of an imported file into those to write and those to
/// skip (with the reason), keeping the input order in each list.
pub fn partition_import(servers: Vec<(String, McpTomlEntry)>) -> (r: ImportPlan)
    ensures
        r.accepted@ == accepted_of(servers@),
        r.rejected.deep_view() == rejected_of(servers@),
{
    let ghost input = servers@;
    let mut accepted: Vec<(String, McpTomlEntry)> = Vec::new();
    let mut rejected: Vec<(String, String)> = Vec::new();
    let mut rest = servers;
    let mut done: usize = 0;
    let total: usize = rest.len();
    assert(input.take(0) =~= Seq::<(String, McpTomlEntry)>::empty());
    assert(rejected.deep_view() =~= Seq::<(Seq<char>, Seq<char>)>::empty());
    assert(input.skip(0) =~= input);
    while rest.len() > 0
        invariant
            total == input.len(),
            done + rest@.len() == total,
            rest@ == input.skip(done as int),
            accepted@ == accepted_of(input.take(done as int)),
            rejected.deep_view() == rejected_of(input.take(done as int)),
        decreases rest.len(),
    {
        let ghost before = input.take(done as int);
        let ghost old_rej = rejected.deep_view();
        let (name, entry) = rest.remove(0);
        assert(input.take(done + 1) =~= before.push((name, entry)));
        assert(rest@ =~= input.skip(done + 1));
        assert(before.push((name, entry)).drop_last() =~= before);
        let bad_transport = match &entry.type_ {
            Some(t) => !is_stdio(t.as_str()),
            None => false,
        };
        if bad_transport {
            let mut why = String::from_str("unsupported transport `");
            match &entry.type_ {
                Some(t) => why.append(t.as_str()),
                None => {},
            }
            why.append("`");
            let ghost nm = name@;
            let ghost wv = why@;
            rejected.push((name, why));
            assert(rejected.deep_view() =~= old_rej.push((nm, wv)));
        } else if entry.command.is_none() {
            let ghost nm = name@;
            rejected.push((name, String::from_str("missing command")));
            assert(rejected.deep_view() =~= old_rej.push((nm, "missing command"@)));
        } else {
            accepted.push((name, entry));
        }
        done = done + 1;
    }
    assert(input.take(total as int) =~= input);
    ImportPlan { accepted, rejected }
}

/// The definitions that an import writes: each accepted entry with its
/// command (empty when absent), arguments and environment, in order.
pub fn import_servers(accepted: &Vec<(String, McpTomlEntry)>) -> (r: Vec<NewServer>)
    ensures
        r@.len() == accepted@.len(),
        forall|i: int| 0 <= i < r@.len() ==> {
            &&& (#[trigger] r@[i]).name@ == accepted@[i].0@
            &&& r@[i].command@ == (match accepted@[i].1.command { Some(c) => c@, None => Seq::<char>::empty() })
            &&& r@[i].args.deep_view() == accepted@[i].1.args.deep_view()
            &&& r@[i].env.deep_view() == accepted@[i].1.env.deep_view()
            &&& accepted@[i].1.wf() ==> r@[i].wf()
        },
{
    let mut r: Vec<NewServer> = Vec::new();
    let mut i: usize = 0;
    while i < accepted.len()
        invariant
            i <= accepted@.len(),
            r@.len() == i,
            forall|j: int| 0 <= j < i ==> {
                &&& (#[trigger] r@[j]).name@ == accepted@[j].0@
                &&& r@[j].command@ == (match accepted@[j].1.command { Some(c) => c@, None => Seq::<char>::empty() })
                &&& r@[j].args.deep_view() == accepted@[j].1.args.deep_view()
                &&& r@[j].env.deep_view() == accepted@[j].1.env.deep_view()
            },
        decreases accepted.len() - i,
    {
        let (name, entry) = (&accepted[i].0, &accepted[i].1);
        let command = match &entry.command {
            Some(c) => c.clone(),
            None => String::new(),
        };
        r.push(NewServer { name: name.clone(), command, args: clone_strings(&entry.args), env: clone_pairs(&entry.env) });
        i = i + 1;
    }
    r
}

} // verus!

verus! {

// ------------------------------------------------------------------
// Laws
// ------------------------------------------------------------------

/// `add-toml` imports exactly the entries that pass the transport and command
/// checks of the conversion: an imported entry can only fail conversion in
/// variable expansion or by a command that expands to nothing, and a skipped
/// one fails it for the reason given.
pub proof fn law_import_agrees_with_conversion(e: McpTomlEntry, env: Seq<(Seq<char>, Seq<char>)>)
    ensures
        importable(e) ==> !(e.convert(env) matches Err(ConfigFailure::UnsupportedTransport(_))),
        importable(e) && (e.convert(env) matches Err(ConfigFailure::MissingCommand)) ==> expand_spec(
            e.command->0@,
            env,
        ) == Ok::<Seq<char>, ExpandFailure>(Seq::<char>::empty()),
        !importable(e) && e.type_ is Some && !is_stdio_spec(e.type_->0@) ==> e.convert(env)
            == Err::<ServerConfigView, ConfigFailure>(ConfigFailure::UnsupportedTransport(e.type_->0@)),
        !importable(e) && !(e.type_ is Some && !is_stdio_spec(e.type_->0@)) ==> e.convert(env)
            == Err::<ServerConfigView, ConfigFailure>(ConfigFailure::MissingCommand),
{
    if importable(e) && (e.convert(env) matches Err(ConfigFailure::MissingCommand)) {
        assert(expand_spec(e.command->0@, env)->Ok_0 =~= Seq::<char>::empty());
    }
}

/// Every entry of an import is either written or skipped, never both.
pub proof fn law_import_partition(s: Seq<(String, McpTomlEntry)>)
    ensures
        accepted_of(s).len() + rejected_of(s).len() == s.len(),
    decreases s.len(),
{
    if s.len() > 0 {
        law_import_partition(s.drop_last());
    }
}

/// Overlays of the project and local scopes never change the user table.
pub proof fn law_merge_keeps_user(
    start: ScopeMaps,
    items: Seq<(Scope, Seq<char>, McpTomlEntry)>,
    env: Seq<(Seq<char>, Seq<char>)>,
)
    requires
        forall|i: int| 0 <= i < items.len() ==> (#[trigger] items[i]).0 != Scope::User,
    ensures
        merge_spec(start, items, env).user == start.user,
    decreases items.len(),
{
    if items.len() > 0 {
        law_merge_keeps_user(start, items.drop_last(), env);
        assert(items.last().0 != Scope::User);
    }
}

/// The last overlay server of a scope whose conversion succeeds is the one
/// that scope's table holds.
pub proof fn law_merge_last_wins(
    start: ScopeMaps,
    items: Seq<(Scope, Seq<char>, McpTomlEntry)>,
    env: Seq<(Seq<char>, Seq<char>)>,
)
    requires
        items.len() > 0,
        items.last().2.convert(env) is Ok,
    ensures
        ({
            let m = merge_spec(start, items, env);
            let (scope, name, entry) = items.last();
            let table = match scope {
                Scope::User => m.user,
                Scope::Project => m.project,
                Scope::Local => m.local,
            };
            table.contains_key(name) && table[name] == entry.convert(env)->Ok_0
        }),
{
}

/// The scopes a merged server shadows also define it, and rank below the
/// scope it is taken from (local, then project, then user).
pub proof fn law_shadowed_rank_below(
    name: Seq<char>,
    user: Map<Seq<char>, ServerConfigView>,
    project: Map<Seq<char>, ServerConfigView>,
    local: Map<Seq<char>, ServerConfigView>,
)
    requires
        in_any(name, user, project, local),
    ensures
        ({
            let w = winning_scope(name, project, local);
            let sh = shadowed_spec(name, user, project, local);
            &&& w == Scope::Local ==> local.contains_key(name)
            &&& w == Scope::Project ==> project.contains_key(name) && !local.contains_key(name)
            &&& w == Scope::User ==> user.contains_key(name) && !project.contains_key(name) && !local.contains_key(name)
            &&& forall|i: int| 0 <= i < sh.len() ==> {
                &&& #[trigger] sh[i] != w
                &&& sh[i] != Scope::Local
                &&& (sh[i] == Scope::Project ==> w == Scope::Local && project.contains_key(name))
                &&& (sh[i] == Scope::User ==> user.contains_key(name))
            }
        }),
{
}

} // verus!

verus! {

/// `get` and `list` show the same merged view: two listings that both show
/// the merged definition of `name` (as `get_server_listing` and each entry of
/// `server_listing` do) agree on scope, definition and shadowed scopes.
pub proof fn law_get_matches_list(
    a: ServerListing,
    b: ServerListing,
    name: Seq<char>,
    user: Map<Seq<char>, ServerConfigView>,
    project: Map<Seq<char>, ServerConfigView>,
    local: Map<Seq<char>, ServerConfigView>,
)
    requires
        a.shows(name, user, project, local),
        b.shows(name, user, project, local),
    ensures
        a.name@ == b.name@,
        a.scope == b.scope,
        a.config@ == b.config@,
        a.shadowed_by@ == b.shadowed_by@,
{
}

} // verus!

verus! {

/// The bracketed label of a listing line is the listing's own scope, spelled
/// `user`, `project` or `local`: a line begins with the name, that label and
/// the command.
pub proof fn law_listing_line_label(name: Seq<char>, scope: Scope, cfg: ServerConfigView)
    ensures
        scope == Scope::User ==> (name + " [user] -> "@ + cfg.command).is_prefix_of(listing_line_spec(name, scope, cfg)),
        scope == Scope::Project ==> (name + " [project] -> "@ + cfg.command).is_prefix_of(
            listing_line_spec(name, scope, cfg),
        ),
        scope == Scope::Local ==> (name + " [local] -> "@ + cfg.command).is_prefix_of(listing_line_spec(name, scope, cfg)),
{
    reveal_strlit(" [");
    reveal_strlit("] -> ");
    reveal_strlit("user");
    reveal_strlit("project");
    reveal_strlit("local");
    reveal_strlit(" [user] -> ");
    reveal_strlit(" [project] -> ");
    reveal_strlit(" [local] -> ");
    let line = listing_line_spec(name, scope, cfg);
    let head = name + " ["@ + scope.name_spec() + "] -> "@ + cfg.command;
    assert(line.subrange(0, head.len() as int) =~= head);
    if scope == Scope::User {
        assert(head =~= name + " [user] -> "@ + cfg.command);
    } else if scope == Scope::Project {
        assert(head =~= name + " [project] -> "@ + cfg.command);
    } else {
        assert(head =~= name + " [local] -> "@ + cfg.command);
    }
}

/// Merging one overlay server changes only the table of that server's own
/// scope; the tables of the two other scopes stay as they were.
pub proof fn law_merge_step_touches_own_scope(
    start: ScopeMaps,
    items: Seq<(Scope, Seq<char>, McpTomlEntry)>,
    env: Seq<(Seq<char>, Seq<char>)>,
)
    requires
        items.len() > 0,
    ensures
        ({
            let before = merge_spec(start, items.drop_last(), env);
            let after = merge_spec(start, items, env);
            let s = items.last().0;
            &&& s != Scope::User ==> after.user == before.user
            &&& s != Scope::Project ==> after.project == before.project
            &&& s != Scope::Local ==> after.local == before.local
        }),
{
}

/// Every server in a merged table was there at the start or comes from an
/// overlay server of that table's own scope whose conversion succeeds.
pub proof fn law_merge_tables_come_from_own_scope(
    start: ScopeMaps,
    items: Seq<(Scope, Seq<char>, McpTomlEntry)>,
    env: Seq<(Seq<char>, Seq<char>)>,
    n: Seq<char>,
)
    ensures
        merge_spec(start, items, env).user.contains_key(n) ==> start.user.contains_key(n) || exists|i: int|
            0 <= i < items.len() && (#[trigger] items[i]).0 == Scope::User && items[i].1 == n && items[i].2.convert(env) is Ok,
        merge_spec(start, items, env).project.contains_key(n) ==> start.project.contains_key(n) || exists|i: int|
            0 <= i < items.len() && (#[trigger] items[i]).0 == Scope::Project && items[i].1 == n && items[i].2.convert(env) is Ok,
        merge_spec(start, items, env).local.contains_key(n) ==> start.local.contains_key(n) || exists|i: int|
            0 <= i < items.len() && (#[trigger] items[i]).0 == Scope::Local && items[i].1 == n && items[i].2.convert(env) is Ok,
    decreases items.len(),
{
    if items.len() > 0 {
        let init = items.drop_last();
        law_merge_tables_come_from_own_scope(start, init, env, n);
        let last = items.len() - 1;
        assert(items[last] == items.last());
        assert forall|i: int| 0 <= i < init.len() implies #[trigger] init[i] == items[i] by {}
    }
}

/// Server names do not depend on letter case: a name is accepted exactly when
/// its lower-case form is.
pub proof fn law_server_names_ignore_case(name: Seq<char>)
    ensures
        valid_server_name(name) == valid_server_name(ascii_lowercase(name)),
{
    let low = ascii_lowercase(name);
    assert forall|i: int| 0 <= i < name.len() implies server_name_char(name[i]) == server_name_char(#[trigger] low[i]) by {
        let c = name[i];
        if 'A' <= c && c <= 'Z' {
            assert((c as u32) + 32 <= 'z' as u32 && 'a' as u32 <= (c as u32) + 32);
            assert(low[i] == ((c as u32) + 32) as char);
        }
    }
    if valid_server_name(low) {
        assert forall|i: int| 0 <= i < name.len() implies #[trigger] server_name_char(name[i]) by {
            assert(server_name_char(low[i]));
        }
    }
    if valid_server_name(name) {
        assert forall|i: int| 0 <= i < low.len() implies #[trigger] server_name_char(low[i]) by {
            assert(server_name_char(name[i]));
        }
    }
}

/// Every non-empty name of lower-case ASCII letters, digits, `_` and `-` is
/// accepted (and so, by `law_server_names_ignore_case`, every such name with
/// letters of either case).
pub proof fn law_server_name_chars_accepted(name: Seq<char>)
    requires
        name.len() > 0,
        forall|i: int|
            0 <= i < name.len() ==> ('a' <= #[trigger] name[i] && name[i] <= 'z') || ('0' <= name[i] && name[i] <= '9')
                || name[i] == '_' || name[i] == '-',
    ensures
        valid_server_name(name),
        valid_server_name(ascii_lowercase(name)),
{
    assert forall|i: int| 0 <= i < name.len() implies #[trigger] server_name_char(name[i]) by {}
    law_server_names_ignore_case(name);
}

} // verus!
