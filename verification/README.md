# trading

A limit order book and matching engine with price-time priority, written in
Verus: the library's functions carry contracts that Verus proves (the one
exception is `MatchingEngine::new`, whose stateless result has nothing to
state).

## Layout

- `src/types/` — fixed-point prices and quantities, identifiers, orders,
  trades and fills, accounts and balances, market configuration, errors, and
  the decimal and hexadecimal text they are shown as.
- `src/orderbook/` — price levels (FIFO queues with a running total), the book
  (sorted bid and ask levels plus an index of resting orders), its mutations,
  and snapshots / L2 summaries.
- `src/matching/` — the matcher (walks the opposite side and produces fills),
  the engine (time-in-force rules: GTC, IOC, FOK, post-only; cancellation),
  and the reports it returns.
- `src/demo/` — the interactive session's state and command parser, and the
  synthetic order flow used by the benchmarks.
- `app/` — the command-line program: the interactive loop, printing, and the
  timed benchmarks.
- `tests/` — unit and scenario tests, run against the compiled library.

## What is proved

Each operation on the book states its result over an abstract view
(`BookView`: sorted levels of FIFO queues and a map from order id to order) and
keeps the book's well-formedness. Matching is specified as a fold over the
book, and proof functions state its guarantees: quantity is conserved, fills
never cross the limit price or trade with the same owner, levels are taken best
price first and orders in arrival order, a match that leaves quantity took
every crossing order of another owner, fill-or-kill is all-or-nothing,
immediate-or-cancel orders never rest, post-only orders never trade, placing
and cancelling keep an uncrossed book uncrossed (when the owner has no order
the new one would cross), and a snapshot restores the book it was taken from
and summarises to the same L2 levels.

A few calls are trusted rather than proved, each behind a small wrapper whose
contract restates what the callee does: the `hex` crate's `decode`, `encode`
and error text for address text, and from std `str::to_lowercase` (command
words) and `HashMap::get_mut` (changing an indexed order in place).
