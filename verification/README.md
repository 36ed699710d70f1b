# ironclaw

The verified core of a sandbox for running trading strategies, written in
Verus.

- `src/sandbox.rs`: the sandbox configuration (secure defaults, builders),
  its validation against the security mandate (at most 512 MB, at most 300 s,
  at least one read-only path), the sandboxing steps, and the exact argument
  list of the bubblewrap command that confines a Python backtest. Laws on the
  defaults, the limits and the shape of the bubblewrap command are proof
  functions there.
- `src/decimal.rs`: decimal rendering of `u64`, with its round-trip law.
- `src/confluence.rs`: the index logic of the phase-confluence signal
  (merging inflection points, counting timeframes aligned in phase).
- `app/`: the host side, which Verus does not see: Landlock enforcement,
  spawning bubblewrap, logging, and the floating-point indicator engine.
