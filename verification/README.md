# max

`max` scaffolds command-line projects: `max init` writes a new project,
`max cmd add|show|edit` manages its commands, and `max config ...` edits a
JSON configuration file by dotted keys (`core.timeout`).

The decisions and text transformations behind these commands are a library
verified with Verus; the program around it does the file system, environment
and terminal work.

## Layout

- `src/` — the verified library.
  - `json.rs` — JSON documents and their model as finite maps.
  - `json_text.rs` — reading a configuration document from its file's text
    and the pretty-printed text written back, through `serde_json`.
  - `nested_keys.rs` — setting and unsetting values by dotted key, with the
    laws that relate the two (a read after a set gives the value back, an
    unset undoes a fresh set, both are idempotent).
  - `command.rs` — command names, PascalCase struct names, the source edits
    that register a new command, and the listing of added commands.
  - `project.rs` — project names and the filling of template files.
  - `config.rs` — where `max` finds its configuration file.
  - `text.rs` — character-sequence helpers the other modules share.
  - `cli.rs` — the command line, as plain data.
  - `template/` — the logic of a generated project: configuration defaults,
    environment overrides, its configuration file and its greeting.
- `tests/` — tests of the library on concrete values.
- `app/` — the `max` program: argument parsing, file and environment access,
  and the template files that `max init` writes.
