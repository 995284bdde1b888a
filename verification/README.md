# termpp

A terminal multiplexer (workspaces of tabs of split panes) whose core is
verified with Verus.

- `src/` — the verified library:
  - `multiplexer/layout.rs`: the binary tree of panes (split, remove, ratios)
    and its laws (split then remove restores the tree, ratios are clamped).
  - `multiplexer/pane.rs`, `multiplexer/notification.rs`: pane status
    (running, waiting, dead) and how output, bells, notifications, exits and
    idle time move it.
  - `multiplexer/workspace.rs`, `multiplexer/session.rs`: tabs, workspaces
    and the session state machine (focus, split, close, new tab / workspace,
    rename, selection, idle checks), each operation with an exact contract
    over a mathematical view and keeping the session well formed.
  - `terminal/grid.rs`: the character grid driven by control sequences
    (cursor moves, erasing, insert/delete, colours, alternate screen,
    scrollback capped at 10 000 lines, operating-system commands).
  - `terminal/selection.rs`: text extraction from a selection.
  - `input.rs`: key bindings, key-to-bytes encoding and key dispatch.
  - `config.rs`: settings with their defaults.
  - `ui/sidebar.rs`: what the sidebar lists.
- `app/` — the window (iced), the pseudo-terminals (portable-pty) and the
  escape-sequence parser (vte) feeding the grid, the clipboard (arboard),
  the configuration file (toml, serde, dirs) and the pixel geometry.
- `tests/` — tests of the library.
