# signal-native-channel

A native Signal messenger channel for ZeroClaw, and the bridge adapter that
connects it to ZeroClaw's WebSocket channel. What is decided on the way (which
messages are heard, where answers go, which files go along, when to try again)
is a library verified with Verus; the rest is an application around it.

| Directory | What it holds |
|---|---|
| `src/` | the library: its functions with their contracts, its laws with their proofs |
| `tests/` | its tests |
| `app/` | the `signal-bridge` program: presage, WebSocket, files, command line |

## The library

| Module | Subject |
|---|---|
| `text`, `hex`, `path` | texts as characters, hexadecimal, Unix paths as bytes |
| `identity`, `recipient` | account UUIDs; recipients by UUID or group master key |
| `content` | what arrives from Signal, and which of it is let through |
| `channel`, `error` | the channel: what to pass on, what to send, when to reconnect |
| `backoff`, `clock` | waits between tries; timestamps |
| `bridge` | the adapter's settings and reconnecting |
| `bridge::protocol`, `bridge::session` | its frames; one connection, step by step |
| `bridge::inbound`, `bridge::outbound` | Signal to bridge, bridge to Signal |
| `bridge::attachments` | files that a text mentions |
| `bridge::watcher`, `bridge::echo` | messages left in session files; what was passed on lately |
| `store`, `linking`, `cli` | the database's place, what linking shows, the command line |

Proof functions whose names begin with `law_` state what holds of the library
as a whole: that the answer to a message reaches where it came from, that a
text passed on is not sent back, that hexadecimal and UUID texts read back as
what was written.

Functions marked `external_body` call into other crates or the standard
library (`uuid`, `mime_guess`, `serde_json`, `qrcode`, UTF-8, the clock). Their
contracts are believed, not proved; the comment above each says what it claims.

## The program

    signal-bridge link --device-name ZeroClaw --db-path ~/.zeroclaw/signal-native.db
    signal-bridge --auth-token <token>

Presage and its SQLite store come from their git repositories, with the
patches that libsignal needs.
