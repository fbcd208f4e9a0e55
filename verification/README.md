# mantis-hybrid

Live data collector and encrypted relay for BTC binary prediction markets, with a paper trader.

`src/` is a library that Verus verifies. `app/` is the program around it: sockets, HTTP, SQLite,
the clock, and the kernel's floating-point formulas.

| Module | What it holds |
|--------|---------------|
| `ring` | Fixed-size ring buffers, one for each of the 19 sources, and their set |
| `normalizer` | From ring entries to the typed inputs of the kernel |
| `kernel` | Domain types, and the decisions that compare the kernel's numbers |
| `debug` | Paper trader: the stages of a tick, entry gates, fills, exits, ranking and bookkeeping |
| `ws_relay` | Encrypted relay: handshake, frames, and the connection's state machine |
| `shipment` | Rows as the relay ships them, and the archive's acknowledgements |
| `venue::kalshi`, `venue::polymarket` | Listings, event slugs, order books and resolutions |
| `db`, `feed`, `book` | Rows on their way to storage, and their timestamps |
| `json`, `text`, `num`, `calendar` | Documents, texts, binary64 numbers and dates as plain values |

Numbers are kept as binary64 bit patterns (`num::Real`): the library compares them and leaves
arithmetic on them to the program. Clock times are whole microseconds since the Unix epoch; the times
of timestamps are kept exactly.

What the library takes from other crates and from std (JSON, HMAC, HKDF, AES-GCM, letter case, UTF-8,
decimal parsing) stands behind functions whose contracts are stated and not proved; each says so in
its doc comment. The laws that relate functions are the public proof functions of the modules.
