# cyberbrain-light

Cyberbrain Light keeps cited, trust-tiered notes for coding agents: plain Markdown in a
project's `.cyberbrain` store, keyword search over them, two lifecycle hooks and an MCP
server. This crate is its rules as a library verified with Verus, and `cbl`, the program
around them.

## Layout

- `src/` is the library. Every function in it is verified against its `requires` and
  `ensures`.
  - `cli`: the commands, note kinds and hook events as plain values.
  - `config`: the three settings and the text of `light.toml`.
  - `path`: finding the store from a directory upwards.
  - `note`: what a write keeps (name, tags, id, creation instant) and the move it refuses.
  - `scan`, `report`: what a scan records per file, what the doctor finds, and the texts
    of `scan`, `status`, `doctor`, `forget`, `write`, `init` and `install`.
  - `recall`: the caveats a search reports and the text of its hits and expansions.
  - `hook`: the session-start context of rings 0 and 1 under the token cap, and the
    pre-compact message.
  - `install`: the merge of the two hook entries into the settings, and their removal.
  - `settings`: the settings file as text: what the merge reads from it, and the text
    written back, which carries everything but the two events' lists through as it was.
  - `json`: values read out of JSON text and JSON written out again, with `serde_json`.
  - `mcp`: the JSON-RPC server's answers, as values and as the lines it sends, and the
    tool calls it hands to the store.
  - `clock`: the calendar day of an instant, from `jiff`.
  - `text`: decimal numbers, trimming, lines, prefixes and ordering of texts.
- `app/` is `cbl`: argument parsing with `clap`, the files, the store and index crates,
  the `--json` reports, and the loops that read standard input.
- `tests/` runs the library on concrete values.

The laws the library states are proof functions next to the code they are about, for
example `install::second_install_changes_nothing`,
`settings::install_keeps_every_other_setting`, `install::undo_takes_out_only_ours`,
`hook::resident_cap_holds`, `mcp::agents_never_write_operator_rings` and
`note::rewrite_keeps_identity`.
