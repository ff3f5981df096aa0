# Tempest

A swing trading bot for Binance spot, with its trading rules verified by Verus.

Tempest polls a few pairs, computes technical indicators, and holds positions for
one to seven days. Every rule it trades by lives in the library under `src/`, and
Verus verifies every function there against its contract. The program under `app/`
only fetches, sends, sleeps and prints.

## Numbers

The rules are generic over the trait `number::Number`. A contract names the
operations and the order in which they are applied, so it pins the result down for
whatever arithmetic the rules run on. The program runs them on machine floats.
`amount::Amount` runs them on exact eight-decimal amounts, and `number::Lawful`
collects the laws of order, sign and rounding that the proofs about amounts, levels
and limits need.

## Runs

What depends on the venue is written as runs. A run names its next request, takes
the reply, and says what it asks for next, until it is over. `executor` buys,
sells and keeps positions protected; `equity` values the account; `cycle` is one
poll; `reconcile` picks up what a crash left behind.

## Modules

| Module | Contents |
| --- | --- |
| `number`, `amount`, `rounding`, `numerals` | the arithmetic, exact amounts, and their laws |
| `text`, `json` | texts, and decoded response bodies |
| `config`, `clock` | settings and the calendar day |
| `indicators`, `strategy` | EMA, RSI, MACD, ATR, swing lows, and the entry and exit rules |
| `risk`, `costs` | sizing, limits, the daily halt, fees and slippage |
| `exchange`, `venue` | orders, filters, and the requests and replies of a run |
| `executor`, `equity`, `cycle`, `reconcile` | the runs |
| `upkeep`, `closed_bars` | laws of many maintenance calls, and of whole cycles |
| `binance`, `market`, `signing` | wire formats, requests and signatures |
| `notify` | messages to the operator |
| `backtest`, `portfolio`, `align` | historical simulation, one symbol and several |
| `report`, `study`, `montecarlo` | what a simulation is judged by |

Functions named `law_...` state what holds of the library as a whole, for every
input: that a position counts as protected only once the venue has confirmed, that
any sequence of maintenance calls leaves the stop on record no lower (for a stop on
the tick and a venue that reports the stop it was given), that a sale that fails
keeps the position, that a cycle acts the same whatever a bar in progress says, that
a simulation reads no later bar and a longer one only adds to a shorter, that its
final balance is that of its trade log, that no buy is sent that a filter would
reject, and so on.

## Settings

The bot reads its settings from the environment or a `.env` file:
`BINANCE_API_KEY`, `BINANCE_API_SECRET`, `BINANCE_BASE_URL`, `QUOTE_ASSET`,
`TRADING_PAIRS`, `POLL_INTERVAL_SECONDS`, `RISK_PER_TRADE_PCT`,
`MAX_OPEN_POSITIONS`, `DAILY_DRAWDOWN_PCT`, `ENTRY_BUFFER_ATR`, `EXIT_BUFFER_ATR`,
`TRAILING_STOP_ATR`, `RSI_MIN`, `RSI_MAX`, `MACD_REQUIRE_CROSS`,
`MACD_LOOKBACK_BARS`, `TAKER_FEE_BPS`, `MAKER_FEE_BPS`, `SLIPPAGE_BPS`,
`TELEGRAM_BOT_TOKEN`, `TELEGRAM_CHAT_ID`, `LOG_LEVEL` and `FORCE_CLOSE`.
`MODE=backtest` or the argument `--backtest` studies history instead of trading.
