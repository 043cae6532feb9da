# Copse

A command-line tool to control `git worktree` with interactive prompts:
create a worktree from any branch or tag, delete worktrees (optionally with
their branches), move to another worktree, and copy uncommitted changes
between worktrees.

## Layout

- `src/` — the library, verified with Verus:
  - `text.rs` — characters, whitespace trimming, line splitting, string order;
  - `path.rs` — paths as text, read by the rules of Unix or of Windows
    (`PathStyle`): components, parent, file name, joining, comparison;
  - `git.rs` — parsing of git's output (branches, tags, worktrees, status,
    diffs), command arguments, and command outcomes;
  - `actions/` — the decisions of the four actions (`create`, `delete`,
    `move_to`, `copy_changes`; deleting and copying run as state machines);
  - `cli.rs` — the command-line options and the action menu.
- `app/` — the program: runs git, asks the user, prints, and hands what git
  printed to the library.
- `tests/` — tests of the library.

A new worktree goes to `<parent of the main worktree>/worktree/<repository
name>/<branch name>`, the branch name with `/ \ : * ? " < > |` replaced by
`_`. The `move-to` and `create` actions print a `COPSE_CD:<path>` line that a
shell wrapper can use to change directory.
