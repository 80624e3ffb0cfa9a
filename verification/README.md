# mterm

A terminal engine and the logic of its command-line tools, verified with
Verus.

- `src/` — the library, every function with a contract:
  - `grid`, `terminal`, `dispatch`, `feed`, `vt`, `kitty`, `graphics`,
    `mouse`: the VT engine (cell grid, scrollback, alternate screen,
    OSC 8 hyperlinks, kitty graphics, SGR mouse encoding), modelled by
    `TermView`; the persistent `vte` parser sits behind trusted wrappers
    and is modelled by the bytes it has been given.
  - `registry`: terminals by handle, as the Android bridge uses them
    (event records, cell colours, dirty flags).
  - `render`: markdown to ANSI; `tool`, `distro`, `pkg`, `agent`,
    `profile`, `runtime`, `pidfile`, `names`: the pure parts of the CLI
    (package index parsing, release selection, SHA-256 parts, Ed25519
    signatures, mirrors, conversation state, profile manifest, PID files,
    name-ordered maps).
  - `laws`: properties that span several operations.
- `app/` — the program around it: PTY sessions, the session runner thread,
  the bridge state, files, network, processes and JSON.
- `tests/` — tests of the library.
