# Matrix Quant

A trading engine for Binance futures and spot, whose decisions are a library verified with Verus.

- `src/` holds the decisions: the order book, the breakout strategy with its trailing stop, the
  guardian that keeps a stop order behind every position, the portfolio limits, the requests to the
  exchange and what its replies mean, the commands of the Telegram desk, the paper trader, the grids
  and the screens. Every function states what it returns or changes, and Verus proves it.
- `app/` runs the library: it reads the exchange, the store and the chat, performs what the library
  asks for, hands the replies back, and writes the messages. What is floating point stays there; the
  library compares doubles by their bits.
- `tests/` runs the library on concrete values.

## How it is put together

Amounts are decimals (`decimal::Dec`), computed by `rust_decimal`. What is relied on is stated beside
the calls: a result is exact where a decimal has it, else close by, and missing only where no decimal is
that large.

Work that alternates with the outside is a small machine. `guardian::Patrol` says what it asks for
(`Ask`) and takes the reply (`Reply`); `strategy::StrategyEngine::evaluate_market` says what a look at
the book leads to; `grid_live::LiveGrid` says what a step of a grid asks for. The app performs it.

## What is proved of the whole

- The guardian only closes positions, never opens one.
- It gives up a stop order only after the one that takes its place stands.
- Once a stop follows the price it moves in favour of the position only. Where it starts to follow above
  what it gives back, its line, before it is brought to the grid of ticks, is at the entry price or on the
  profitable side of it.
- A record of income is counted once, however the pages overlap and wherever they are cut.
- The coins of a grid are never lost sight of, and a pause leaves no order open. Grids run only where they
  were switched on, never more at once than there are slots, and pinned symbols come first.
- The strategy finds no entry while it is paused, and spaces its signals.

## Settings

`BINANCE_API_KEY`, `BINANCE_API_SECRET`, `TELOXIDE_TOKEN` and `TELEGRAM_CHAT_ID` are read from the
environment or from `.env`; `REDIS_URL`, `BINANCE_BASE_URL`, `BINANCE_WS_URL`, `BINANCE_SPOT_URL`,
`TOP_SYMBOLS_COUNT` and `FEATURE_LOG_DIR` may be set.

`takecell` is named among the dependencies only to hold a dependency of `teloxide` at a version that the
compiler in use can build.
