# zed_core

The logic of a code editor, written in Verus. The functions of the library carry contracts
that Verus proves, but for those that call an outside crate: what these promise is taken on
trust.

- `src/` is the library.
  - `rope`, `sum_tree`: text storage and the tree that it is kept in.
  - `outline_panel`, `project_symbols`, `search_history`, `signature_help`, `repl_editor`:
    what panels and pickers show and how they react.
  - `git_store`: repositories, the status of their files, diffs, and the jobs that run.
  - `rpc`, `remote`: peers, connections and their messages.
  - `task`, `terminals`, `snippet`, `snippet_provider`: tasks, terminals and snippets.
  - `sqlez`: migrations, savepoints and checks of SQL.
  - `paths`, `project_settings`, `lsp_ext_command`: places of files, settings, requests to
    language servers.
  - `text`, `text_map`, `text_set`, `path`, `collections`, `shared`: what the rest is built on.
- `tests/` runs the library on examples.
- `app/` is ordinary Rust around the library: files, databases, sockets, JSON and threads.

What comes from outside crates stands behind small functions marked
`#[verifier::external_body]`, and what comes from the standard library also behind
`assume_specification`. Their doc comments say what is taken on trust.
