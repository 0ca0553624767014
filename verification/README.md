# codex_mcp

Management of the MCP (Model Context Protocol) servers configured for Codex,
with its decisions verified by Verus.

Servers are defined in three scopes: the user's `config.toml` (`[mcp_servers]`),
the project overlay `.mcp.toml` and the local overlay `.mcp.local.toml` at the
project root. The merged view gives precedence local > project > user.

## Layout

- `src/` — the verified library.
  - `text.rs`: character sequences, decimal rendering, string assembly.
  - `expand.rs`: `${VAR}` / `${VAR:-default}` expansion against a lookup table.
  - `mcp_toml.rs`: overlay entries and their conversion to strict server
    configurations (transport check, expansion of command, arguments and
    environment values); the precedence order of the overlays.
  - `server_map.rs`: the per-scope tables of servers, and the lexicographic
    order of names.
  - `mcp_cmd.rs`: the merged view (`list`, `get`), merging overlays into the
    scope tables, and the argument checks and plans of `add`, `remove` and
    `add-toml`.
  - `toml_doc.rs`: writing servers into, and removing them from, the
    `[mcp_servers]` table of a TOML file's text, keeping the rest of the file
    (toml_edit's document, behind trusted wrappers).
  - `models.rs`: the items exchanged with the model, the conversion of input
    items to response items, user messages built from input items, and
    timestamps.
  - `line_utils.rs`: owned copies, blank-line detection and prefixes of styled
    terminal lines.
- `tests/` — tests of the library.
- `app/` — the `codex-mcp` program: command line, reading and writing the
  configuration files (their new text comes from the library), JSON output,
  and the serde forms of the library's types.

Each public function states its result in its `ensures`; properties that span
several functions are public proof functions whose names begin with `law_`.
