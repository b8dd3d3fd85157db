# catdesk

CatDesk lets a ChatGPT web session work on a local workspace through an MCP
server, reached over an ngrok tunnel, with a terminal interface that shows
the requests as they flow. This crate holds its logic, verified with Verus:
every function in `src/` carries a contract, and the laws of the library are
proof functions there.

## Layout

- `src/` — the verified library.
  - `text`, `number`, `sorted`, `markdown`: characters, lines, trimming,
    decimal and hexadecimal numbers, ordered string lists, line endings.
  - `task_queue`: the `.catdesk/todo.md` task list — parsing, stable ids,
    the next-id marker, adding tasks and setting their status.
  - `project_memory`, `prompt_templates`: the markdown memory documents and
    the prompt templates kept in the workspace.
  - `repo_map`, `verification`: what the workspace holds (languages,
    frameworks, entry points, build and test commands) and the verification
    plan run on it.
  - `git_workflow`: branch and path checks, `git status` parsing, commit
    previews and the confirmation tokens that bind a commit to its preview.
  - `state`, `tui`, `screen`, `ngrok`: the shared application state, the
    request-flow lanes and their animation, the terminal screens' key
    handling and layout, and the tunnel's checks and records.
  - `mascot`: the pixel mascot — terminal cells, crops, masks, palette
    fitting and the widget encoding.
  - `clock`, `ids`, `json`: the few calls into the clock, the random
    generators, Base64 and `serde_json`, each behind a trusted item whose
    contract says what the call is relied on for.
- `tests/` — tests run against the compiled library.
- `app/` — the command-line program around the library: files, processes,
  the configuration file and its serde/toml form.
