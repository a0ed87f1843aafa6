# nerve-tmux-surface

The tmux side of Nerve: a sidebar that lists every job the local hub reports,
grouped by machine, a popup for the status line, and the `install` / `toggle` /
`close` / `auto-close` commands that tmux's key bindings and hooks run.

The library under `src/` is written in Verus. Its contracts state what each
function computes over mathematical models (`Seq`, `Map`, spec functions and
views), and Verus proves the code against them:

- `status`, `filter`, `summary`, `tally`, `columns`, `order`: how a job is
  classified, counted, aged, escaped for the status line and ordered;
- `state`, `view`, `input`: the sidebar's state machine (selection anchored to a
  job, filters, the bottom panel) and the rows it draws;
- `git`, `procs`, `ssh`, `panes`, `machine`, `locate`, `http`: parsers of what
  `git`, `ps`, `~/.ssh/config`, tmux and the hub's event stream print, and the
  rules that pick a pane, a route or a hub binary from them;
- `tmux`, `preview`, `instance`, `remote`, `stream`, `popup`, `cli`: the command
  sequences sent to tmux, with every call recorded in a ghost log so the
  contracts can say which calls were made.

Calls into `unicode-width` and `rustix` stand behind small trusted wrappers whose
contracts say what those crates document.

`app/` is the program around the library: argument handling, processes,
sockets, threads, the terminal UI drawn with `ratatui`, and the JSON wire types.
`tests/` runs the library on concrete values.
