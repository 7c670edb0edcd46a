# spr_core

The verified core of a spread-capture paper-trading bot for linear perpetuals, and the program around
it.

* `src/` is the library. Everything in it is verified with Verus: order book, rolling statistics,
  symbol filter, quoting strategy, paper exchange, accounting, risk limits, the engine that ties them
  together, market-data records and their reader, replay, the meaning of feed messages, instrument
  selection, database rows and the statements that enter them, and the steps of the synthetic market.
  Rates, ratios and limits are decimals with eight fractional digits in an `i64`. The prices of an
  instrument have as many digits as its steps ask for and its quantities the rest of sixteen, so that
  amounts of money always carry sixteen, in an `i128`. Figures that leave the range saturate.
* `src/*_laws.rs`, `src/paper_history.rs`, `src/database.rs`, and the functions named `law_*` elsewhere,
  state what holds of several functions at once: the kill switch latches and stops entries, at most one
  order rests on each side of a symbol, every close of a position is counted as a round trip, a fill at the
  mark moves no equity, fills add up to orders over every sequence of calls, every row is
  committed once unless its batch fails five times, exits never flip a position, recorded market data is
  replayed as it was, the active set is the best of the eligible.
* `app/` is the `spr` program: command line, REST and WebSocket feeds, files, the SQLite writer thread,
  and the volatility estimate and synthetic walk, which are floating point.
* `tests/` runs the library.

The engine never waits for I/O. `Engine::on_market` and `Engine::on_time` return whether housekeeping is
due; the caller then hands the volatility of each symbol to `Engine::tick`, which returns whether the
configuration files should be looked at. What is to be persisted collects in `Engine::outbox`.

The library calls `chrono` for dates, and the system clock, behind five small functions marked
`external_body`; their contracts are not proved.
