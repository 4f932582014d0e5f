# skillfile

A verified library behind the `skillfile` command: a manifest of AI skills and agents
(`Skillfile`), the lock file beside it, and the local edits that survive upstream updates.

- `src/` is the library, in Verus. Every function states what it returns, and Verus proves it.
  - `models`, `parser`, `lock`, `config`: the manifest, its grammar, lock keys and install targets.
  - `patch`, `unified`, `patch_paths`, `path_order`: making, applying and keeping patches.
  - `commands/`: what each command decides, as functions from what was found on disk or fetched to
    a plan of what to write and print; and the two full-screen pickers as state machines.
  - `update_check`, `platforms`, `registry`, `output`, `conflict`: releases, platforms, search
    results, progress and conflicts.
  - `manifest_laws`, `sort_laws`, `init_laws`, `patch_laws`: properties that span several functions,
    such as that an entry is read back as it was written, that sorting twice changes nothing, and
    that a patch, applied to the text it starts from, gives the text it was made for. The last holds
    of texts without lone carriage returns, and up to a line feed at the end.
  - `text`, `lines`, `bytes`, `numbers`, `paths`, `sorted`: text and its parts.
- `tests/` runs the library on concrete values.
- `app/` is the program: the command line, files, the network and the terminal. It fetches and
  deploys through the sibling crates `skillfile_sources` and `skillfile_deploy`.

What is not proved is stated where it is used: the crates `similar` (diffs), `semver` (versions) and
`serde_json` (the answer of the release service), and a few functions of the standard library.
