# pa_strategy

Trading strategies for prediction markets, verified with Verus.

- `src/decimal.rs`, `src/rounding.rs`: decimal numbers with up to 28 decimal places, computed by `rust_decimal` and
  specified over the integers.
- `src/crypto_alpha/`: entries into and exits out of markets on crypto prices.
- `src/convergence.rs`: markets that are about to resolve.
- `src/cross_market.rs`, `src/similarity.rs`: pairs of markets whose prices should add up.
- `src/neg_risk.rs`, `src/detector.rs`: prices within a market or an event that do not add up.
- `src/liquidity_rewards/`: which rewarded markets to quote, where, and how to move the orders.
- `src/engine.rs`, `src/stop_loss.rs`: cooldowns, depth, budgets and forced sales.
- `src/profitability.rs`: fees and profits.

A formula that a decimal overflow can cut short is a spec function that gives an `Option`, and the
executable function asks for it to be `Some`. Statements that relate several functions are public
proof functions whose names begin with `law_`.

`app/` is what runs the strategies: price feeds, the floating-point price model, clocks and the loop
that executes what the strategies propose.
