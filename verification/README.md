# hft_lead_lag

The decision core of a cross-exchange (Binance / Gate.io futures) lead-lag
trading runtime, verified with Verus: the functions in `src/` are proved
against their `requires` / `ensures` contracts, and many properties that span
several functions are proved as `lemma_*` proof functions. The shared health
counters are std atomics, whose values Verus does not model, so their
constructor and the values a snapshot reads from them are not stated.

## Layout

- `src/` — the verified library.
  - `portfolio`, `assignment`, `guards`, `ab_portfolio`, `portfolio_history`,
    `records`, `drained`, `candidates`: candidate statistics and ranking, stop-loss guards and cooldowns,
    the no-overlap assignment of symbols to portfolios, assignment history,
    drained-trade handling (candidate history by run, merged per symbol and
    close time; paper states credited to the owner at entry), persistence
    records.
  - `fleet_patch`, `catalog`: fleet configuration patches and symbol-catalog
    pruning.
  - `health`, `health_check`, `health_state`: the health verdict, SLO windows
    and the shared health counters.
  - `runtime`, `ingest`, `symbols`, `symbol_cache`, `clock_offset`, `timestamps`, `sorting`:
    event-loop metrics, execution worker state, batch ingestion, strategy
    symbol ids and interning, exchange clock offsets and timestamp normalisation.
  - `runner`, `forward_job`: trial runner commands, phase options, the start
    decision, job bookkeeping and the steps of an internal forward job.
  - `config`, `models`, `servers`, `fingerprint`, `text`, `arith`:
    configuration values, domain enums, server settings, file fingerprints and
    helpers.
- `tests/` — executable tests of the library.
- `app/` — the command-line program around the library: configuration files
  and environment, file system and clock reads, JSON output.

Prices are fixed-point integers (1e-8 ticks). Where the runtime compares
floating-point averages, the library takes an integer key that orders as the
averages do.
