# gitswitch

A manager for several local git repositories and the git identities used in
them: profiles of `user.name`, `user.email` and an SSH key, applied to a
repository's *local* git configuration, plus branch listing, checkout,
fetch and push with the profile's key.

The library under `src/` is verified with Verus:

- `config` — the configuration (repositories, profiles, selection) and the
  operations that edit it, with the laws they keep.
- `repos` — adding repositories and looking up what a command needs.
- `keys` — SSH keys under `~/.ssh` and the profiles made from them.
- `git` — parsing git's output (branches, status, log) and the git commands
  each operation runs, as plans or step functions driven from outside.
- `path` — `~` expansion, path joining and the configuration locations.
- `text`, `order`, `sort` — text helpers, byte-wise string order and a
  verified sort.
- `ids` — fresh UUIDs.

`app/` holds the parts that touch the outside world: reading and writing the
configuration file, listing `~/.ssh`, running git, and the serde forms of the
library's types.
