# markdownfs

A virtual file system for Markdown files with users, groups, permissions,
delegation and content-addressed version control, written in Verus: the
library's behaviour is stated in `requires` / `ensures` contracts and proved.

## Layout

- `src/fs/` — the tree of inodes: paths, permissions, the file operations,
  search, and the laws on what they keep and change.
- `src/auth/` — users, groups, sessions, API tokens and permission checks.
- `src/cmd/` — the shell: the command-line parser, each command, and
  pipelines (`ran` says what a whole pipeline does).
- `src/store/`, `src/vcs/` — the object store, snapshots, commits, log,
  status and revert, with the commit-then-revert law.
- `src/codec.rs` — the byte formats of trees, commits and saved state.
- `src/db.rs`, `src/repl.rs` — a database over the file system and the
  repository, and what a line typed at the prompt does.
- `src/mcp.rs`, `src/server/` — the agent tools and the HTTP routes, as
  functions from requests to answers.
- `src/workspace.rs` — workspaces and their agent tokens.
- `src/client.rs` — what the HTTP client sends and reads back.
- `app/` — the interactive shell program: reading lines, printing, and
  saving state to disk.
- `tests/` — tests of the library on concrete values.

Calls into outside crates (`sha2`, `regex`, `chrono`, `uuid`, `rand`) stand
behind small trusted wrappers whose contracts say what those crates
document.

## Not here

- `PosixFs`'s handle operations (`open`, `create`, `read`, `write`,
  `release`, `rename`, `link`, `readlink` and the rest) call file-system
  methods and types (`HandleId`, `FsOptions`) that the file system here does
  not have, so the POSIX layer offers only the operations it can build on.
- The HTTP server, the MCP server, the FUSE mount and the remote stores are
  I/O around the library; their request handling is in `src/` as functions
  from requests to answers.
