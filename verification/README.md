# fluxsyncd

The rules of a clipboard-sync daemon, as verified functions on plain values: who is
trusted, who may send what to whom, what is kept and what is forgotten, when a lost
peer is dialed again. The daemon keeps the clipboards of paired devices the same over
the local network, peer to peer, without a server.

- `src/` is the library. Every function in it is verified with Verus against its
  `requires` and `ensures`. Functions take a message, a command or the tick of a timer
  and the daemon's memory (`driver::node::Node`), change the memory, and return what is
  to be done (`driver::effects::Effect`).
- `src/codec.rs`, `src/text.rs` and `src/driver/content.rs` hold the few items that are
  trusted: calls of `hex`, `base32`, `base64`, `blake3`, `image`, `rand_core` and of the
  standard library, each with what is claimed of it.
- `app/` is the daemon around the library: sockets, files, the clipboard, mDNS, the
  local clients and the clock. What it needs of the state machine, the protocol's
  encoding, the encrypted sessions and the stores is in `app/world.rs`.
- `tests/` runs the library on concrete values.

Laws that span several functions are public proof functions beside the functions that
they speak of, for example that a peer waiting for confirmation moves no clipboard
content (`driver::inbound`), that an item cut into chunks is put together again in
whatever order they come (`driver::reassembly`), and that a change of trust that could
not be stored is taken back (`driver::pairing`).
