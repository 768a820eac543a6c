# winmosh

A Mosh-compatible terminal client for Windows, written in Verus: the logic of the
client is a verified library, and a thin program drives it.

## Layout

- `src/` — the verified library.
  - `text` — characters, trimming, lines, decimal numbers.
  - `config` — the configuration file: its model, the reader and writer
    (`load`), host aliases (`hosts`, `alias`), resolving a target
    (`resolve`), reading `ssh -G` output (`ssh_config`), and the proof that
    writing a configuration and reading it back gives it again (`round_trip`).
  - `bootstrap` — starting `mosh-server` over ssh: the command line, the
    session key, parsing the server's `MOSH CONNECT` line and ssh's exit.
  - `protocol` — the State Synchronization Protocol: protobuf messages,
    fragments and their reassembly (in order, and in any order with repeats), sequence
    numbers, AES-128-OCB3 datagrams, state synchronisation and timing.
  - `terminal` — framebuffer, user input stream, diffs and rendering.
  - `platform` — console modes, window size, executable lookup.
  - `client` — command-line parsing, key mapping, the decisions of an
    interactive session, update checks and version order.
- `tests/` — tests of the library through its public interface.
- `app/` — the program: files, processes, sockets, the console and the
  event loop, which carries out what the library decides.

Verus checks `src/` against its contracts; calls into `flate2`, `base64`,
`ocb3` and `aes` stand behind small trusted wrappers whose contracts say what
those crates do.
