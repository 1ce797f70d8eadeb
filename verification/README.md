# hive

`hive` is a command line tool for local development: it initializes a
project (`.hive/config.yml`, `.hive/.env`, `.hive/.secrets`, `.hive/logs/`),
runs its scripts, manages environment variables and secrets, shows logs,
exposes a local port through a cloudflared tunnel, keeps a registry of
projects and checks the tools a project needs.

The decisions the tool makes are a library whose behaviour is stated in
`requires`/`ensures` contracts and proved with Verus:

- `src/` — the verified library: project detection, the `.hive/` layout,
  the `KEY=value` files, the configuration and its scripts, the files
  `hive init` writes, the registry, what each command shows, and the laws
  that relate these functions (reading back what was written, idempotent
  `.gitignore` patching, distinct process names, and others).
- `tests/` — tests of the library on concrete values.
- `app/` — the program around it: argument parsing, files, processes,
  threads, prompts and colours.
