# Raddex

The core of a small reverse-proxy gateway, verified with Verus.

- `src/config` reads a Raddexfile: lexing, environment variables and imports, parsing,
  validation and compilation into a snapshot, and the store that publishes snapshots.
  `guarantees.rs` states what holds of every configuration that compiles, `equivalences.rs`
  and `splicing.rs` that two ways to write something mean the same, and `joining.rs` what two
  files mean one after the other.
- `src/layer4` decides for TCP and UDP listeners: upstream selection and health, routing by
  server name, TLS termination, relays, flow tables, and the handoff of UDP sockets to a new
  process.
- `src/migrate` converts a common subset of the Caddyfile and of nginx.conf. What it writes
  parses, and `joining.rs` states that sources can be converted one after the other.
- `src/bench` holds the counts and the pace of the load generator, and the answers of the
  benchmark origin.
- `src/text.rs`, `src/num.rs`, `src/net.rs` and `src/time.rs` are the ground: text, numbers,
  addresses and spans of time, each with its model. `src/literals.rs` shows that the text of an
  address reads back as that address.
- `tests` runs the library on concrete values.
- `app` is the program around it: the command line, files, sockets, signals and metrics.

What the library needs from outside - environment variables, files, the addresses of hosts - it
takes as data. Where something is missing it says so, the caller adds the answer, and asks again.
The calls into OpenSSL and arc-swap stand behind functions whose contracts are trusted; each says
in its comment which function it calls and what it claims of it.
