# polymarket_arb

An arbitrage bot for prediction markets. A market pays one dollar for exactly one
of its outcomes, so where all outcomes together cost less than a dollar, buying
every one of them is a profit whatever wins.

The rules of the bot are a library whose behaviour is stated in contracts and
proved with Verus. Around it stands an ordinary program that talks to the
exchange, the clock and the disk.

## Layout

- `src/` is the library.
  - `quantity`: the number type that prices and rates are made of. All rules are
    written over any such type. `Decimal`, a fixed-point number, is proved to be
    one. The program uses 64-bit floats.
  - `config`, `text`, `numeral`, `timestamp`, `seqs`: settings and filters, texts,
    numbers in decimal, instants, and facts about sequences.
  - `types`: quotes packed into one word, markets, and the state of all of them.
  - `gamma`, `market_scanner`: listed markets, and which of them are tracked.
  - `event_detector`: new markets, volume spikes, price movements, opportunities.
  - `polymarket`: what the messages of the price feed do, and when its connection
    is given up.
  - `execution`: which requests are acted on, for how many contracts, and what
    comes of the fills.
  - `circuit_breaker`: the limits on positions, losses and errors.
  - `paper_trading`: simulated trading and the way to live trading.
  - `position_tracker`, `metrics`: what is held, and how the bot is doing.
  - `session`: how these come together in a run.
- `tests/` runs the library on given values.
- `app/` is the program.

## What is not proved

- `F64` in `app/number.rs`, the number type that the program runs on, is not
  checked against the contract of `Quantity`: Verus does not read it. What is
  proved over any `Quantity` holds of the program as far as its methods return
  the same result on the same arguments, round within the bounds that they are
  given, and give whole cents back.
- The doc comments of the items marked `external_body` say what is believed of
  the functions of other crates and of the standard library.

## Settings

| Variable | Default | Meaning |
|----------|---------|---------|
| `PAPER_MODE` | `1` | Trades are simulated |
| `DRY_RUN` | `1` | No orders are sent |
| `FORCE_LIVE` | `0` | Trades are real even in paper mode |
| `CB_MAX_POSITION_PER_MARKET` | `100` | Contracts in one market |
| `CB_MAX_TOTAL_POSITION` | `200` | Contracts in all markets |
| `CB_MAX_DAILY_LOSS` | `20` | Dollars lost in a day |
| `CB_MAX_CONSECUTIVE_ERRORS` | `5` | Errors in a row before a halt |
