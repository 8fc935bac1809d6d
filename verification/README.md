# PokePlanet

The rules of a shared-world game, proved.

Players of one game walk the same overworld, chat, battle and keep their progress on a server. The
game talks to a sidecar on its own machine over a loopback link; the sidecar talks to the server
over QUIC; the server owns every save. This crate holds what each of them decides and computes, as
executable Rust whose contracts Verus proves.

## Layout

- `src/` is the library.
  - `proto/` the messages, and the frames between the game and its sidecar
  - `server/save_parse/` reading, judging and rewriting the game's flash image
  - `server/quic/` what a connection may do: greeting, signing in, control messages, reports of
    progress, slices of saves and blocks
  - `server/world.rs` who is online, where they stand, whom they reach, who battles whom
  - `server/` the smaller rules: collision, chat, money, story flags, the permadeath world, drops,
    rates, pages, the chat bridge, configuration, certificates, identities
  - `net/` the sidecar: settings, the browser, the link to the game, the session, a headless player
  - `bytes.rs`, `text.rs`, `single.rs` little-endian numbers, text, and numbers of single precision
- `tests/` runs the library on concrete values.
- `app/` is ordinary Rust around the library: sockets, the database, TLS, the web server, processes,
  and what is kept in floating point.

## What is stated

Each function says exactly what it returns or changes, and when it fails. What relates several of
them is stated as a public proof function whose name begins with `law_`: a block that was written is
the block that is read, and no other block moves; a reported region cannot touch money, the party or
the bag; the lists by map say of each player exactly where they stand; money that moves between
wallet and bank is neither made nor lost; a frame that was sent is the frame that arrives.

## What is believed

Calls that leave the crate stand behind a few small functions with a contract and no proof: SHA-256
(`sha2`), a number left to chance (`rand`), percent-encoding (`urlencoding`), the certificates and
the key in a PEM file (`rustls-pemfile`), and two functions of the standard library, the lossy
decoding of UTF-8 and pushing a character onto a string.
