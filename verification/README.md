# dragonfly

The core of the Dragonfly terminal client as a verified library: every
function under `src/` carries a `requires`/`ensures` contract that Verus
proves.

- `src/` — the library. Shell integration and terminal output
  (`osc`, `session_io`, `pty`), command history with fuzzy search
  (`history`), remote listings, permissions and transfers (`remote`, `ls`,
  `transfer`), SSH port forwarding and the SOCKS5 handshake (`tunnel`),
  configuration and settings with the layout migration (`config`,
  `settings`), AES-256-GCM credential storage (`crypto`, `codec`), and cloud
  sync storage with WebDAV digest authentication (`cloud`, `digest`).
- `tests/` — tests against the compiled library.
- `app/` — a command-line front end that reads and writes the files under
  `~/.dragonfly` and hands their contents to the library.

Calls into other crates (aes-gcm, base64, sha2, md-5, nucleo-matcher, rand,
uuid) go through small `external_body` functions whose contracts state what
those crates document.
