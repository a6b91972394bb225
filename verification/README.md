# docker_tray

The logic of a macOS menu-bar app that manages containers, either through a
Docker Engine socket (Docker Desktop, OrbStack, or a bundled Colima VM) or
through Apple's `container` command-line tool.

`src/` is the library, written in Verus: every function has a contract, and
the properties that span several functions are stated and proved as lemmas.

- `text`, `json`, `cli`: character-level text handling, JSON values as the
  tools print them, and how a finished command is read.
- `docker`: the records the tray shows, built from the Docker Engine's
  answers; containers grouped by compose project.
- `apple`: the `container` tool's commands and how their JSON is read.
- `files`, `terminal`: the file explorer inside containers, shells in a
  terminal application, Finder.
- `runtime`: detecting the runtime, the VM configuration files of Colima and
  Lima, and starting and stopping the bundled Colima as a state machine.
- `tray`: the background start, what the window shows meanwhile, and the
  tray's texts and windows.
- `provider`: the runtime the user selected.

`app/` is plain Rust around it: running processes, reading and writing
files, the Docker Engine through bollard, and the serde forms of the records.
