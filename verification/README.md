# Trade Edge

A trading game in three programs: a bot that watches a chain for `Trade`
events of a contract and claims them, a referee server that accepts the first
valid claim of each trade, and a terminal dashboard that shows the claims live.

`src/` is the verified library (Verus):

- `word` — 256-bit words as big-endian bytes, their numeric order, and Keccak-256.
- `trade` — decoding the contract's `Trade` logs, the claim query, delay units.
- `bot` — the bot's decisions: which notifications and ring events announce
  trades, what request claims one, when an idle poll yields.
- `server` — the referee's rules: the response check, who claimed first, and
  which trades a live subscriber is still owed.
- `sse` — framing of the server-sent event stream.
- `dashboard`, `user_map` — the dashboard's tallies, leaderboard, colours,
  recent trades and animations.

`app/` holds the programs around it (`trade-edge bot|server|tui`): networking,
the terminal, logging, randomness and the floating-point parts.
`tests/` runs the library on concrete values.
