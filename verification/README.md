# linux-it-guy-toolbox (verified core)

The catalog, command construction and task-run decisions of the Linux IT Guy
Toolbox, written in Verus and proved against their contracts.

- `src/` is the verified library:
  - `validate` – the rules for catalog fields, helper names and `main.sh`
    arguments, and the redaction and wiping of the sudo password;
  - `catalog` – catalog rows, argv construction, helper-script confinement,
    catalog loading and the lookup of the catalog directory;
  - `runner` – which tasks need sudo or Flatpak, the Flatpak bootstrap argv,
    and the check every task argv passes before it runs;
  - `session` – a run of tasks as a state machine: each step names the next
    outside action and takes its result back;
  - `lifecycle` – what holds of whole runs: every run ends, once, and keeps
    to the sudo discipline (cache credentials at most once, run no privileged
    task before caching succeeded, drop them exactly when they were cached);
  - `path`, `text` – path components and the string helpers the rest uses;
  - `logos`, `system` – icon slugs and the package-manager choice.
- `tests/` runs the library on concrete values.
- `app/` is the I/O around it: reading `apps_config.csv` with `csv` and
  `serde`, probing the filesystem, spawning processes, and rasterizing SVG
  logos with `usvg`, `resvg`, `tiny-skia` and `eframe`.
