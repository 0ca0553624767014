//! Permissive `.mcp.toml` entries and their conversion to the strict server
//! configuration used by Codex.
use vstd::prelude::*;

use crate::expand::{env_view, expand_spec, expand_vars, ExpandError, ExpandFailure};
use crate::server_map::distinct_keys;
use crate::text::push_char;

verus! {

/// Where an MCP server definition comes from.
#[derive(Debug, Clone, Copy, PartialEq, Eq, Structural)]
pub enum Scope {
    User,
    Project,
    Local,
}

impl Scope {
    pub open spec fn name_spec(self) -> Seq<char> {
        match self {
            Scope::User => "user"@,
            Scope::Project => "project"@,
            Scope::Local => "local"@,
        }
    }

    /// The scope's name as shown to users: `user`, `project` or `local`.
    pub fn as_str(&self) -> (r: &'static str)
        ensures
            r@ == self.name_spec(),
    {
        match self {
            Scope::User => "user",
            Scope::Project => "project",
            Scope::Local => "local",
        }
    }
}

/// One `[mcp_servers.<name>]` table of an overlay file, as written.
#[derive(Debug)]
pub struct McpTomlEntry {
    /// The transport (`type = ...`); only `stdio` (in any letter case) is supported.
    pub type_: Option<String>,
    pub command: Option<String>,
    pub args: Vec<String>,
    /// Environment entries, in file order; names are distinct.
    pub env: Vec<(String, String)>,
}

impl McpTomlEntry {
    /// No environment name occurs twice.
    pub open spec fn wf(&self) -> bool {
        distinct_keys(self.env.deep_view())
    }

    /// An entry with every field absent or empty.
    pub fn empty() -> (r: Self)
        ensures
            r.wf(),
            r.type_ is None,
            r.command is None,
            r.args@.len() == 0,
            r.env@.len() == 0,
    {
        McpTomlEntry { type_: None, command: None, args: Vec::new(), env: Vec::new() }
    }
}

/// A whole overlay file: its `[mcp_servers]` table, in file order.
#[derive(Debug)]
pub struct McpToml {
    pub mcp_servers: Vec<(String, McpTomlEntry)>,
}

impl McpToml {
    /// No server name occurs twice, and each entry is well-formed.
    pub open spec fn wf(&self) -> bool {
        &&& forall|i: int, j: int| 0 <= i < j < self.mcp_servers@.len() ==> (#[trigger] self.mcp_servers@[i]).0@
            != (#[trigger] self.mcp_servers@[j]).0@
        &&& forall|i: int| 0 <= i < self.mcp_servers@.len() ==> (#[trigger] self.mcp_servers@[i]).1.wf()
    }

    /// A file without servers.
    pub fn empty() -> (r: Self)
        ensures
            r.wf(),
            r.mcp_servers@.len() == 0,
    {
        McpToml { mcp_servers: Vec::new() }
    }
}

/// The overlays of a project in precedence order for merging: the local
/// overlay (`.mcp.local.toml`) first, then the project overlay (`.mcp.toml`);
/// an overlay that is absent (missing, unreadable or unparsable) is left out.
pub fn collect_overlays(local: Option<McpToml>, project: Option<McpToml>) -> (r: Vec<(Scope, McpToml)>)
    ensures
        r@ == (match local {
            Some(l) => seq![(Scope::Local, l)],
            None => Seq::<(Scope, McpToml)>::empty(),
        }) + (match project {
            Some(p) => seq![(Scope::Project, p)],
            None => Seq::<(Scope, McpToml)>::empty(),
        }),
{
    let mut r: Vec<(Scope, McpToml)> = Vec::new();
    let ghost lv = local;
    let ghost pv = project;
    if let Some(l) = local {
        r.push((Scope::Local, l));
    }
    if let Some(p) = project {
        r.push((Scope::Project, p));
    }
    proof {
        let a = match lv {
            Some(l) => seq![(Scope::Local, l)],
            None => Seq::<(Scope, McpToml)>::empty(),
        };
        let b = match pv {
            Some(p) => seq![(Scope::Project, p)],
            None => Seq::<(Scope, McpToml)>::empty(),
        };
        assert(r@ =~= a + b);
    }
    r
}

/// The strict configuration of a stdio MCP server.
#[derive(Debug)]
pub struct McpServerConfig {
    pub command: String,
    pub args: Vec<String>,
    /// `None` when the server gets no extra environment; never `Some` of an empty list.
    pub env: Option<Vec<(String, String)>>,
}

/// The mathematical content of a server configuration.
pub struct ServerConfigView {
    pub command: Seq<char>,
    pub args: Seq<Seq<char>>,
    pub env: Option<Seq<(Seq<char>, Seq<char>)>>,
}

impl View for McpServerConfig {
    type V = ServerConfigView;

    open spec fn view(&self) -> ServerConfigView {
        ServerConfigView { command: self.command@, args: self.args.deep_view(), env: self.env.deep_view() }
    }
}

pub fn clone_strings(v: &Vec<String>) -> (r: Vec<String>)
    ensures
        r.deep_view() == v.deep_view(),
{
    let mut r: Vec<String> = Vec::new();
    let mut i: usize = 0;
    while i < v.len()
        invariant
            i <= v@.len(),
            r@.len() == i,
            forall|k: int| 0 <= k < i ==> (#[trigger] r@[k])@ == v@[k]@,
        decreases v.len() - i,
    {
        r.push(v[i].clone());
        i = i + 1;
    }
    assert(r.deep_view() =~= v.deep_view());
    r
}

pub fn clone_pairs(v: &Vec<(String, String)>) -> (r: Vec<(String, String)>)
    ensures
        r.deep_view() == v.deep_view(),
{
    let mut r: Vec<(String, String)> = Vec::new();
    let mut i: usize = 0;
    while i < v.len()
        invariant
            i <= v@.len(),
            r@.len() == i,
            forall|k: int| 0 <= k < i ==> (#[trigger] r@[k]).0@ == v@[k].0@ && r@[k].1@ == v@[k].1@,
        decreases v.len() - i,
    {
        r.push((v[i].0.clone(), v[i].1.clone()));
        i = i + 1;
    }
    assert(r.deep_view() =~= v.deep_view());
    r
}

impl McpServerConfig {
    /// No environment name occurs twice.
    pub open spec fn wf(&self) -> bool {
        self.env matches Some(e) ==> distinct_keys(e.deep_view())
    }

    /// A copy of this configuration.
    pub fn duplicate(&self) -> (r: Self)
        ensures
            r@ == self@,
    {
        let env = match &self.env {
            Some(e) => Some(clone_pairs(e)),
            None => None,
        };
        McpServerConfig { command: self.command.clone(), args: clone_strings(&self.args), env }
    }
}

// ------------------------------------------------------------------
// Transport
// ------------------------------------------------------------------

pub open spec fn ascii_lower(c: char) -> char {
    if 'A' <= c && c <= 'Z' {
        ((c as u32) + 32) as char
    } else {
        c
    }
}

pub open spec fn ascii_lowercase(s: Seq<char>) -> Seq<char> {
    s.map_values(|c: char| ascii_lower(c))
}

/// A transport name that the converter accepts: `stdio` in any ASCII letter case.
pub open spec fn is_stdio_spec(t: Seq<char>) -> bool {
    ascii_lowercase(t) == "stdio"@
}

fn lower_char(c: char) -> (r: char)
    ensures
        r == ascii_lower(c),
{
    if c >= 'A' && c <= 'Z' {
        let b: u8 = c as u8;
        assert(b as u32 == c as u32);
        (b + 32) as char
    } else {
        c
    }
}

/// Whether the transport name `t` is `stdio`, ignoring ASCII letter case.
pub fn is_stdio(t: &str) -> (r: bool)
    ensures
        r == is_stdio_spec(t@),
{
    let mut lowered = String::new();
    let mut it_done: usize = 0;
    let chars = crate::text::chars_of(t);
    while it_done < chars.len()
        invariant
            it_done <= chars@.len(),
            chars@ == t@,
            lowered@ == ascii_lowercase(t@).take(it_done as int),
        decreases chars.len() - it_done,
    {
        push_char(&mut lowered, lower_char(chars[it_done]));
        it_done = it_done + 1;
        assert(lowered@ =~= ascii_lowercase(t@).take(it_done as int));
    }
    assert(ascii_lowercase(t@).take(chars@.len() as int) =~= ascii_lowercase(t@));
    lowered == String::from_str("stdio")
}

// ------------------------------------------------------------------
// Expansion of lists
// ------------------------------------------------------------------

/// The expansion of each text of `xs` in order; the first failure, with the
/// text it occurred in, ends it.
pub open spec fn expand_each(xs: Seq<Seq<char>>, env: Seq<(Seq<char>, Seq<char>)>) -> Result<Seq<Seq<char>>, (ExpandFailure, Seq<char>)>
    decreases xs.len(),
{
    if xs.len() == 0 {
        Ok(Seq::empty())
    } else {
        match expand_each(xs.drop_last(), env) {
            Err(e) => Err(e),
            Ok(prev) => match expand_spec(xs.last(), env) {
                Ok(v) => Ok(prev.push(v)),
                Err(f) => Err((f, xs.last())),
            },
        }
    }
}

/// The expansion of each value of `kvs` in order, keeping the names; the first
/// failure, with the value it occurred in, ends it.
pub open spec fn expand_values(kvs: Seq<(Seq<char>, Seq<char>)>, env: Seq<(Seq<char>, Seq<char>)>) -> Result<Seq<(Seq<char>, Seq<char>)>, (ExpandFailure, Seq<char>)>
    decreases kvs.len(),
{
    if kvs.len() == 0 {
        Ok(Seq::empty())
    } else {
        match expand_values(kvs.drop_last(), env) {
            Err(e) => Err(e),
            Ok(prev) => match expand_spec(kvs.last().1, env) {
                Ok(v) => Ok(prev.push((kvs.last().0, v))),
                Err(f) => Err((f, kvs.last().1)),
            },
        }
    }
}

proof fn lemma_expand_each_err_stays(xs: Seq<Seq<char>>, env: Seq<(Seq<char>, Seq<char>)>, i: int, j: int)
    requires
        0 <= i <= j <= xs.len(),
        expand_each(xs.take(i), env) is Err,
    ensures
        expand_each(xs.take(j), env) == expand_each(xs.take(i), env),
    decreases j - i,
{
    if i < j {
        lemma_expand_each_err_stays(xs, env, i, j - 1);
        assert(xs.take(j).drop_last() =~= xs.take(j - 1));
    }
}

proof fn lemma_expand_values_err_stays(xs: Seq<(Seq<char>, Seq<char>)>, env: Seq<(Seq<char>, Seq<char>)>, i: int, j: int)
    requires
        0 <= i <= j <= xs.len(),
        expand_values(xs.take(i), env) is Err,
    ensures
        expand_values(xs.take(j), env) == expand_values(xs.take(i), env),
    decreases j - i,
{
    if i < j {
        lemma_expand_values_err_stays(xs, env, i, j - 1);
        assert(xs.take(j).drop_last() =~= xs.take(j - 1));
    }
}

/// The expansion of values keeps the names, in order.
proof fn lemma_expand_values_keys(kvs: Seq<(Seq<char>, Seq<char>)>, env: Seq<(Seq<char>, Seq<char>)>)
    ensures
        expand_values(kvs, env) matches Ok(out) ==> out.len() == kvs.len() && forall|i: int|
            0 <= i < kvs.len() ==> (#[trigger] out[i]).0 == kvs[i].0,
    decreases kvs.len(),
{
    if kvs.len() > 0 {
        lemma_expand_values_keys(kvs.drop_last(), env);
        if let Ok(out) = expand_values(kvs, env) {
            let prev = expand_values(kvs.drop_last(), env)->Ok_0;
            assert forall|i: int| 0 <= i < kvs.len() implies (#[trigger] out[i]).0 == kvs[i].0 by {
                if i < kvs.len() - 1 {
                    assert(out[i] == prev[i]);
                    assert(kvs.drop_last()[i] == kvs[i]);
                }
            }
        }
    }
}

// ------------------------------------------------------------------
// Conversion
// ------------------------------------------------------------------

/// Why an entry cannot be converted, in terms of its contents.
pub enum ConfigFailure {
    UnsupportedTransport(Seq<char>),
    MissingCommand,
    /// An expansion failed in `text`, which came from the field named by `label`.
    Expand { failure: ExpandFailure, text: Seq<char>, label: Seq<char> },
}

/// Why `to_mcp_server_config` refused an entry.
#[derive(Debug)]
pub enum ConfigError {
    UnsupportedTransport(String),
    MissingCommand,
    Expand(ExpandError),
}

impl ConfigError {
    /// This error is the exec form of `f`.
    pub open spec fn describes(&self, f: ConfigFailure) -> bool {
        match (*self, f) {
            (ConfigError::UnsupportedTransport(t), ConfigFailure::UnsupportedTransport(u)) => t@ == u,
            (ConfigError::MissingCommand, ConfigFailure::MissingCommand) => true,
            (ConfigError::Expand(e), ConfigFailure::Expand { failure, text, label }) => e.describes(failure, text, label),
            _ => false,
        }
    }

    pub open spec fn message_spec(&self) -> Seq<char> {
        match *self {
            ConfigError::UnsupportedTransport(t) => "unsupported MCP transport `"@ + t@ + "` (only `stdio` supported)"@,
            ConfigError::MissingCommand => "missing `command` for stdio MCP server"@,
            ConfigError::Expand(e) => e.message_spec(),
        }
    }

    /// The human-readable description of this error.
    pub fn message(&self) -> (r: String)
        ensures
            r@ == self.message_spec(),
    {
        match self {
            ConfigError::UnsupportedTransport(t) => {
                let mut r = String::from_str("unsupported MCP transport `");
                r.append(t.as_str());
                r.append("` (only `stdio` supported)");
                r
            },
            ConfigError::MissingCommand => String::from_str("missing `command` for stdio MCP server"),
            ConfigError::Expand(e) => e.message(),
        }
    }
}

pub open spec fn label_command() -> Seq<char> { "overlay:command"@ }
pub open spec fn label_args() -> Seq<char> { "overlay:args"@ }
pub open spec fn label_env() -> Seq<char> { "overlay:env"@ }

/// The conversion of an entry with transport `type_`, command `command`,
/// arguments `args` and environment `envs`, against the lookup table `env`.
pub open spec fn convert_spec(
    type_: Option<Seq<char>>,
    command: Option<Seq<char>>,
    args: Seq<Seq<char>>,
    envs: Seq<(Seq<char>, Seq<char>)>,
    env: Seq<(Seq<char>, Seq<char>)>,
) -> Result<ServerConfigView, ConfigFailure> {
    if type_ is Some && !is_stdio_spec(type_->0) {
        Err(ConfigFailure::UnsupportedTransport(type_->0))
    } else if command is None {
        Err(ConfigFailure::MissingCommand)
    } else {
        match expand_spec(command->0, env) {
            Err(f) => Err(ConfigFailure::Expand { failure: f, text: command->0, label: label_command() }),
            Ok(cmd) => if cmd.len() == 0 {
                Err(ConfigFailure::MissingCommand)
            } else {
                match expand_each(args, env) {
                Err((f, t)) => Err(ConfigFailure::Expand { failure: f, text: t, label: label_args() }),
                Ok(a) => match expand_values(envs, env) {
                    Err((f, t)) => Err(ConfigFailure::Expand { failure: f, text: t, label: label_env() }),
                    Ok(e) => Ok(ServerConfigView {
                        command: cmd,
                        args: a,
                        env: if e.len() == 0 { None } else { Some(e) },
                    }),
                },
                }
            },
        }
    }
}

impl McpTomlEntry {
    /// The conversion of this entry against the lookup table `env`.
    pub open spec fn convert(&self, env: Seq<(Seq<char>, Seq<char>)>) -> Result<ServerConfigView, ConfigFailure> {
        convert_spec(self.type_.deep_view(), self.command.deep_view(), self.args.deep_view(), self.env.deep_view(), env)
    }
}

/// Converts a permissive overlay entry to the strict configuration used by Codex.
///
/// - Only the `stdio` transport (in any letter case), or none, is accepted.
/// - Variables are expanded in `command`, in each argument and in each
///   environment value, in that order; the first failure is returned.
/// - A `command` that is missing, or empty after expansion, is an error.
/// - The resulting `env` is `None` when the entry has no environment entries.
pub fn to_mcp_server_config(entry: &McpTomlEntry, lookup: &[(String, String)]) -> (r: Result<McpServerConfig, ConfigError>)
    ensures
        match r {
            Ok(cfg) => entry.convert(env_view(lookup)) == Ok::<ServerConfigView, ConfigFailure>(cfg@)
                && (entry.wf() ==> cfg.wf()),
            Err(e) => entry.convert(env_view(lookup)) matches Err(f) && e.describes(f),
        },
{
    let ghost env = env_view(lookup);
    if let Some(t) = &entry.type_ {
        if !is_stdio(t.as_str()) {
            return Err(ConfigError::UnsupportedTransport(t.clone()));
        }
    }
    let command_raw = match &entry.command {
        Some(c) => c,
        None => {
            return Err(ConfigError::MissingCommand);
        },
    };
    let command = match expand_vars(command_raw.as_str(), lookup, "overlay:command") {
        Ok(c) => c,
        Err(e) => {
            return Err(ConfigError::Expand(e));
        },
    };
    if command.as_str().unicode_len() == 0 {
        return Err(ConfigError::MissingCommand);
    }

    let ghost args_in = entry.args.deep_view();
    let mut args: Vec<String> = Vec::new();
    let mut i: usize = 0;
    assert(args_in.take(0) =~= Seq::<Seq<char>>::empty());
    assert(args.deep_view() =~= Seq::<Seq<char>>::empty());
    while i < entry.args.len()
        invariant
            i <= entry.args@.len(),
            args_in == entry.args.deep_view(),
            env == env_view(lookup),
            entry.type_ is Some ==> is_stdio_spec(entry.type_->0@),
            entry.command.deep_view() == Some(command_raw@),
            expand_spec(command_raw@, env) == Ok::<Seq<char>, ExpandFailure>(command@),
            command@.len() > 0,
            expand_each(args_in.take(i as int), env) == Ok::<Seq<Seq<char>>, (ExpandFailure, Seq<char>)>(args.deep_view()),
        decreases entry.args.len() - i,
    {
        assert(args_in.take(i + 1).drop_last() =~= args_in.take(i as int));
        match expand_vars(entry.args[i].as_str(), lookup, "overlay:args") {
            Ok(a) => {
                args.push(a);
                assert(args.deep_view() =~= expand_each(args_in.take(i + 1), env)->Ok_0);
            },
            Err(e) => {
                proof {
                    assert(args_in.take(i + 1).last() == args_in[i as int]);
                    assert(expand_each(args_in.take(i + 1), env) is Err);
                    lemma_expand_each_err_stays(args_in, env, i + 1, args_in.len() as int);
                    assert(args_in.take(args_in.len() as int) =~= args_in);
                }
                return Err(ConfigError::Expand(e));
            },
        }
        i = i + 1;
    }
    assert(args_in.take(args_in.len() as int) =~= args_in);

    let ghost envs_in = entry.env.deep_view();
    let mut env_out: Vec<(String, String)> = Vec::new();
    let mut j: usize = 0;
    assert(envs_in.take(0) =~= Seq::<(Seq<char>, Seq<char>)>::empty());
    assert(env_out.deep_view() =~= Seq::<(Seq<char>, Seq<char>)>::empty());
    while j < entry.env.len()
        invariant
            j <= entry.env@.len(),
            envs_in == entry.env.deep_view(),
            env == env_view(lookup),
            expand_each(args_in, env) == Ok::<Seq<Seq<char>>, (ExpandFailure, Seq<char>)>(args.deep_view()),
            args_in == entry.args.deep_view(),
            entry.type_ is Some ==> is_stdio_spec(entry.type_->0@),
            entry.command.deep_view() == Some(command_raw@),
            expand_spec(command_raw@, env) == Ok::<Seq<char>, ExpandFailure>(command@),
            command@.len() > 0,
            expand_values(envs_in.take(j as int), env) == Ok::<Seq<(Seq<char>, Seq<char>)>, (ExpandFailure, Seq<char>)>(env_out.deep_view()),
        decreases entry.env.len() - j,
    {
        assert(envs_in.take(j + 1).drop_last() =~= envs_in.take(j as int));
        match expand_vars(entry.env[j].1.as_str(), lookup, "overlay:env") {
            Ok(v) => {
                env_out.push((entry.env[j].0.clone(), v));
                assert(env_out.deep_view() =~= expand_values(envs_in.take(j + 1), env)->Ok_0);
            },
            Err(e) => {
                proof {
                    assert(envs_in.take(j + 1).last() == envs_in[j as int]);
                    assert(expand_values(envs_in.take(j + 1), env) is Err);
                    lemma_expand_values_err_stays(envs_in, env, j + 1, envs_in.len() as int);
                    assert(envs_in.take(envs_in.len() as int) =~= envs_in);
                }
                return Err(ConfigError::Expand(e));
            },
        }
        j = j + 1;
    }
    assert(envs_in.take(envs_in.len() as int) =~= envs_in);

    proof {
        lemma_expand_values_keys(envs_in, env);
        if distinct_keys(envs_in) {
            let out = env_out.deep_view();
            assert forall|a: int, b: int| 0 <= a < b < out.len() implies (#[trigger] out[a]).0 != (#[trigger] out[b]).0 by {
                assert(envs_in[a].0 != envs_in[b].0);
            }
        }
    }
    let env_field = if env_out.len() == 0 { None } else { Some(env_out) };
    Ok(McpServerConfig { command, args, env: env_field })
}

} // verus!

verus! {

// ------------------------------------------------------------------
// Laws
// ------------------------------------------------------------------

/// `s` holds no `${`.
pub open spec fn plain_text(s: Seq<char>) -> bool {
    forall|j: int| 0 <= j < s.len() - 1 ==> !#[trigger] crate::expand::opens_ref(s, j)
}

proof fn lemma_expand_each_plain(xs: Seq<Seq<char>>, env: Seq<(Seq<char>, Seq<char>)>)
    requires
        forall|i: int| 0 <= i < xs.len() ==> plain_text(#[trigger] xs[i]),
    ensures
        expand_each(xs, env) == Ok::<Seq<Seq<char>>, (ExpandFailure, Seq<char>)>(xs),
    decreases xs.len(),
{
    if xs.len() > 0 {
        let init = xs.drop_last();
        assert forall|i: int| 0 <= i < init.len() implies plain_text(#[trigger] init[i]) by {
            assert(init[i] == xs[i]);
        }
        lemma_expand_each_plain(init, env);
        assert(plain_text(xs[xs.len() - 1]));
        crate::expand::law_plain_text_unchanged(xs.last(), env);
        assert(init.push(xs.last()) =~= xs);
    } else {
        assert(xs =~= Seq::<Seq<char>>::empty());
    }
}

proof fn lemma_expand_values_plain(kvs: Seq<(Seq<char>, Seq<char>)>, env: Seq<(Seq<char>, Seq<char>)>)
    requires
        forall|i: int| 0 <= i < kvs.len() ==> plain_text(#[trigger] kvs[i].1),
    ensures
        expand_values(kvs, env) == Ok::<Seq<(Seq<char>, Seq<char>)>, (ExpandFailure, Seq<char>)>(kvs),
    decreases kvs.len(),
{
    if kvs.len() > 0 {
        let init = kvs.drop_last();
        assert forall|i: int| 0 <= i < init.len() implies plain_text(#[trigger] init[i].1) by {
            assert(init[i] == kvs[i]);
        }
        lemma_expand_values_plain(init, env);
        assert(plain_text(kvs[kvs.len() - 1].1));
        crate::expand::law_plain_text_unchanged(kvs.last().1, env);
        assert(init.push((kvs.last().0, kvs.last().1)) =~= kvs);
    } else {
        assert(kvs =~= Seq::<(Seq<char>, Seq<char>)>::empty());
    }
}

/// A stdio entry with a non-empty command, whose command, arguments and environment
/// values hold no `${`, converts to exactly that command, those arguments and
/// that environment (none when empty), whatever the lookup table: a server
/// written without variables reads back as written.
pub proof fn law_plain_entry_converts_unchanged(
    type_: Option<Seq<char>>,
    command: Seq<char>,
    args: Seq<Seq<char>>,
    envs: Seq<(Seq<char>, Seq<char>)>,
    env: Seq<(Seq<char>, Seq<char>)>,
)
    requires
        type_ is None || is_stdio_spec(type_->0),
        command.len() > 0,
        plain_text(command),
        forall|i: int| 0 <= i < args.len() ==> plain_text(#[trigger] args[i]),
        forall|i: int| 0 <= i < envs.len() ==> plain_text(#[trigger] envs[i].1),
    ensures
        convert_spec(type_, Some(command), args, envs, env) == Ok::<ServerConfigView, ConfigFailure>(ServerConfigView {
            command,
            args,
            env: if envs.len() == 0 { None } else { Some(envs) },
        }),
{
    crate::expand::law_plain_text_unchanged(command, env);
    lemma_expand_each_plain(args, env);
    lemma_expand_values_plain(envs, env);
}

} // verus!
