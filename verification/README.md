# lightpool_bot

Market making on LightPool, a chain of spot markets: the adapter for its index service, and two
strategies that mirror reference books (Polymarket outcomes, Hyperliquid equities) onto it.

- `src/` holds the rules, with contracts proved by Verus: amounts and prices, instruments, balances,
  the requests to the index service and the reading of its messages, the tracking of orders, the
  mirroring of books, and the programs' choices.
- `tests/` runs the library on concrete values.
- `app/` does the I/O around it: HTTP, websockets, transactions, the trading node and the command
  line.

Outside crates are called in `src/` through small wrappers; the doc comment of each says what is
taken on trust.
