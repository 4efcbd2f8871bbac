# wots

A dotfile manager for WSL. Packages are directories of a repository named
`<name>.<type>`:

| type      | target              | deployed by        |
| --------- | ------------------- | ------------------ |
| `user`    | `~`                 | GNU Stow           |
| `config`  | `~/.config`         | GNU Stow           |
| `root`    | `/`                 | `sudo ln -sf`      |
| `meta`    | —                   | by hand            |
| `winuser` | `C:\Users\<name>`   | robocopy / pwsh    |
| `winroot` | `C:\`               | robocopy / pwsh    |

Commands: `create`, `sync`, `stats`, `list`, `diff`.

## Layout

- `src/` — the library, verified with Verus: package types and names,
  target paths, exclusion rules, size formatting, the per-file sync status
  of Windows packages and the sync index it keeps, and the decisions and
  texts of each command. Each public function states what it returns in its
  contract; the laws of the library are public proof functions.
- `app/` — the program around it: the command line, the environment, the
  file system, processes (stow, robocopy, pwsh), JSON and terminal output.
- `tests/` — tests of the library.
