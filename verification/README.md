# git-switcher

Switches the git identity of a repository between profiles (work, personal, ...),
maps directories to profiles, rewrites remote URLs for HTTPS user names or SSH
host aliases, and stores GitHub tokens encrypted.

- `src/` is the library, verified with Verus: string operations (`text`), the
  ordered key list (`keyed`), profiles and configuration (`config`), token
  encryption and masking (`crypto`), remote URLs and credentials (`remote`),
  SSH aliases (`ssh`), parsing git output (`git`), errors and commands.
- `app/` is the command-line program: argument parsing, the configuration file,
  and running git.
- `tests/` runs the library on concrete inputs.
