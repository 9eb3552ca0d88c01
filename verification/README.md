# Hub

A control panel for a live audio rig: it boots and supervises SuperCollider and Tidal,
wires JACK, pins threads, relays an editor's lines to Tidal and browses recorded stems.

| path | role |
|---|---|
| `src/` | what the panel decides, as verified Rust: command lines, the boot chain, what a child's output means, the relay, the quantum, recordings, MIDI listings, the mute grid |
| `tests/` | the same, on values |
| `app/` | the program around it: the window, the child processes, the sockets, the directories |

The library does no I/O. It is handed what a command printed, what a directory listed or
how a step ended, and gives back the next state, the lines to log and what to run. Each of
its functions states in its contract what it gives for every input, and the laws beside
them state what holds of several calls together.

The song timeline is titled and logged by the library (`song_title`, `song_log`); the
program shows none yet.

The window's identity (`app/backend.rs`) needs the `i-slint-backend-winit` crate, in the
version of `slint`. It is not among the dependencies of `Cargo.toml`, as it brings in the
packages of every desktop platform and nearly doubles the lock; a build of the program adds
it. Nothing else needs it.
