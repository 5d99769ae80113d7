# hupoker

Heads-up No-Limit Texas Hold'em: a game engine, the server's decisions and the desktop
client's state, written in Verus with their behaviour stated in `requires`/`ensures` contracts
and proved.

## Layout

- `src/` — the verified library.
  - `card`, `deck`: cards and the seeded Fisher-Yates shuffle (top card first).
  - `hand_evaluation`: five-card categories and scores, best five of seven.
  - `betting`, `hand`, `pot`, `payout`: one street of betting, a hand from the deal to the
    showdown, and the payout of the pots.
  - `table`, `table_manager`, `config`, `player`: tables, seats, reconnection windows,
    timeouts and what the server does after each request.
  - `messages`, `handshake`: the protocol's messages and the opening exchange.
  - `audit`: encrypted seed records and the other audit records.
  - `client`: what the desktop client shows and decides (buttons, join steps, reconnection).
  - `ids`, `clock`, `text`: identifiers, time and decimal text.
- `tests/` — tests run against the compiled library.
- `app/` — the program around the library: the TCP server, the audit-log file and its
  reader, the configuration file and the egui client.

Outside crates (rand, rand_chacha, uuid, chrono, getrandom, chacha20poly1305, base64, hex) and
the standard library's clock are called from `src/` through small trusted wrappers whose contracts state what their sources
show; each wrapper's doc comment names the function it calls.
