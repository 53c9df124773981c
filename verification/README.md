# kaintuck

The verified core of a flatboat-trading adventure down the Ohio and
Mississippi, with its forgiving command parser and its companion minigames.

- `src/` — the library, proved with Verus: the parser (edit distance, fuzzy
  matching, tiered inference), hashing and number grouping, the flavor-line
  composers (trader gossip, dockside rumors), titles and the hall of fame, the
  minigame vocabulary, the shared-economy server's decisions, and the rules and
  table sessions of the minigames (`src/minigames/`).
- `tests/` — the library's tests.
- `app/` — the unverified shell: serde forms of the wire and save types, JSON
  framing, and the helpers that work in floating point.
